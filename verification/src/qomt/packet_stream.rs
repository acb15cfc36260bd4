//! Packets of one association: a reliable lane on the main connection and a best-effort lane on
//! the UDP bypass.
//!
//! The tasks that own the streams call one method per step and do what it says.

use std::collections::VecDeque;

use vstd::prelude::*;

use super::connection::PathSample;
use super::datagram_router::{bump, bumped, QomtDatagramSendOutcome};
use crate::framing::FrameRead;
use crate::quic_connection::config::MAX_DATAGRAM_SIZE;
use crate::time::TimeSpan;

verus! {

/// The frames that wait for the main connection.
pub const QOMT_RELIABLE_PACKET_QUEUE_CAPACITY: usize = 16;

/// The packets of both lanes that wait for the application.
pub const QOMT_INCOMING_PACKET_QUEUE_CAPACITY: usize = 16;

/// The longest packet. What is too long for the bypass goes over the main connection.
pub const MAX_QOMT_PACKET_FRAME_SIZE: usize = MAX_DATAGRAM_SIZE;

/// Packets of this length or more use the bypass whatever the round trips are.
pub const UDP_LARGE_PACKET_THRESHOLD: usize = 1024;

/// How long a comparison of the round trips is used.
pub const PATH_METRICS_SAMPLE_INTERVAL_NANOS: u128 = 100_000_000;

/// The malformed datagrams that one poll skips before it lets other tasks run.
pub const MAX_MALFORMED_DATAGRAMS_PER_POLL: usize = 16;

/// `QPS1`: the accepting end is ready for datagrams.
pub open spec fn ready_acknowledgement() -> Seq<u8> {
    seq![81u8, 80u8, 83u8, 49u8]
}

#[derive(Clone, Copy, Debug, PartialEq, Eq, Structural)]
pub enum QomtPacketDelivery {
    Reliable,
    BestEffort,
}

#[derive(Clone, Copy, Debug, PartialEq, Eq, Structural)]
pub enum QomtPacketDropReason {
    UdpQueueFull,
    ReliableFallbackQueueFull,
}

#[derive(Clone, Copy, Debug, PartialEq, Eq, Structural)]
pub enum QomtPacketSendOutcome {
    ReliableQueued,
    DatagramQueued,
    Dropped(QomtPacketDropReason),
}

/// Why a packet stream cannot be used.
#[derive(Clone, Copy, Debug, PartialEq, Eq, Structural)]
pub enum UdpPacketStreamError {
    Closed,
    FrameTooLarge(usize),
    /// The peer did not acknowledge as it should.
    InvalidReady,
    /// An I/O error, by its operating system code where it has one.
    Io(Option<i32>),
}

/// What has happened to packets so far.
#[derive(Clone, Copy, Debug, PartialEq, Eq, Structural)]
pub struct QomtPacketStreamStats {
    pub reliable_queued: u64,
    pub datagram_queued: u64,
    pub dropped_udp_queue_full: u64,
    pub dropped_reliable_queue_full: u64,
    pub received_reliable: u64,
    pub received_datagram: u64,
    pub dropped_incoming_datagram_queue_full: u64,
    pub dropped_malformed_datagram: u64,
}

impl QomtPacketStreamStats {
    pub open spec fn zero() -> QomtPacketStreamStats {
        QomtPacketStreamStats {
            reliable_queued: 0,
            datagram_queued: 0,
            dropped_udp_queue_full: 0,
            dropped_reliable_queue_full: 0,
            received_reliable: 0,
            received_datagram: 0,
            dropped_incoming_datagram_queue_full: 0,
            dropped_malformed_datagram: 0,
        }
    }
}

impl Default for QomtPacketStreamStats {
    fn default() -> (stats: Self)
        ensures
            stats == QomtPacketStreamStats::zero(),
    {
        QomtPacketStreamStats {
            reliable_queued: 0,
            datagram_queued: 0,
            dropped_udp_queue_full: 0,
            dropped_reliable_queue_full: 0,
            received_reliable: 0,
            received_datagram: 0,
            dropped_incoming_datagram_queue_full: 0,
            dropped_malformed_datagram: 0,
        }
    }
}

/// The lane that a packet came on.
#[derive(Clone, Copy, Debug, PartialEq, Eq, Structural)]
pub enum IncomingLane {
    Reliable,
    Datagram,
}

/// A packet that waits for the application.
#[derive(Clone, Debug, PartialEq, Eq)]
pub struct IncomingPacket {
    pub lane: IncomingLane,
    pub encoded: Vec<u8>,
}

impl View for IncomingPacket {
    type V = (IncomingLane, Seq<u8>);

    open spec fn view(&self) -> (IncomingLane, Seq<u8>) {
        (self.lane, self.encoded@)
    }
}

/// What the writer of the reliable lane is to do, in order.
#[derive(Clone, Debug, PartialEq, Eq)]
pub enum ReliableCommand {
    /// Write a frame. The sender waits for it where `awaited` is set.
    Frame { encoded: Vec<u8>, awaited: bool },
    /// Shut the lane down: everything before was written.
    Close,
}

/// The mathematical form of a `ReliableCommand`.
pub enum Command {
    Frame(Seq<u8>, bool),
    Close,
}

impl View for ReliableCommand {
    type V = Command;

    open spec fn view(&self) -> Command {
        match self {
            ReliableCommand::Frame { encoded, awaited } => Command::Frame(encoded@, *awaited),
            ReliableCommand::Close => Command::Close,
        }
    }
}

/// How far an orderly close has come.
#[derive(Clone, Copy, Debug, PartialEq, Eq, Structural)]
pub enum ReliableCloseState {
    Open,
    /// The close command waits for room in the queue.
    Enqueueing,
    /// The close command waits for the writer.
    Waiting,
    Closed,
}

/// The mathematical form of a `QomtPacketStream`.
#[verifier::ext_equal]
pub struct StreamModel {
    pub association_id: u64,
    pub close_state: ReliableCloseState,
    pub send_closed: bool,
    /// The tasks were told to stop.
    pub closing: bool,
    /// The association receives datagrams.
    pub registered: bool,
    pub writer_running: bool,
    pub reliable_reader_running: bool,
    pub datagram_reader_running: bool,
    /// What the writer said of the close command.
    pub close_result: Option<Result<(), Option<i32>>>,
    pub commands: Seq<Command>,
    pub incoming: Seq<(IncomingLane, Seq<u8>)>,
    pub stats: QomtPacketStreamStats,
    /// When the round trips were last compared, and what came out.
    pub sampled_at: Option<TimeSpan>,
    pub rtt_prefers_udp: bool,
    pub read_closed: bool,
}

impl StreamModel {
    pub open spec fn initial(association_id: u64) -> StreamModel {
        StreamModel {
            association_id,
            close_state: ReliableCloseState::Open,
            send_closed: false,
            closing: false,
            registered: true,
            writer_running: true,
            reliable_reader_running: true,
            datagram_reader_running: true,
            close_result: None,
            commands: Seq::empty(),
            incoming: Seq::empty(),
            stats: QomtPacketStreamStats::zero(),
            sampled_at: None,
            rtt_prefers_udp: false,
            read_closed: false,
        }
    }

    /// The queues are within their capacities.
    pub open spec fn valid(self) -> bool {
        self.commands.len() <= QOMT_RELIABLE_PACKET_QUEUE_CAPACITY && self.incoming.len()
            <= QOMT_INCOMING_PACKET_QUEUE_CAPACITY
    }

    /// The reliable lane takes nothing more: a close has begun, or its writer has stopped.
    pub open spec fn lane_over(self) -> bool {
        self.close_state != ReliableCloseState::Open || !self.writer_running
    }

    /// No packet can be started any more.
    pub open spec fn sending_over(self) -> bool {
        self.send_closed || self.lane_over()
    }

    /// The comparison of the round trips is missing or too old at `now`.
    pub open spec fn sample_due(self, now: TimeSpan) -> bool {
        match self.sampled_at {
            None => true,
            Some(at) => now.nanos - at.nanos >= PATH_METRICS_SAMPLE_INTERVAL_NANOS,
        }
    }

    /// The packet is of a length for which the round trips decide.
    pub open spec fn length_decides_nothing(encoded_len: int, max_payload_len: Option<usize>) -> bool {
        max_payload_len matches Some(maximum) && encoded_len <= maximum && encoded_len
            < UDP_LARGE_PACKET_THRESHOLD
    }

    /// The model after the question whether a packet uses the bypass.
    pub open spec fn sampled(
        self,
        encoded_len: int,
        max_payload_len: Option<usize>,
        now: TimeSpan,
        sample: PathSample,
    ) -> StreamModel {
        if Self::length_decides_nothing(encoded_len, max_payload_len) && self.sample_due(now) {
            StreamModel {
                sampled_at: Some(now),
                rtt_prefers_udp: sample.prefers_udp(),
                ..self
            }
        } else {
            self
        }
    }

    /// A packet uses the bypass: it fits, and it is long or the round trips speak for it.
    pub open spec fn uses_udp(
        self,
        encoded_len: int,
        max_payload_len: Option<usize>,
        now: TimeSpan,
        sample: PathSample,
    ) -> bool {
        &&& max_payload_len matches Some(maximum) && encoded_len <= maximum
        &&& encoded_len >= UDP_LARGE_PACKET_THRESHOLD || self.sampled(
            encoded_len,
            max_payload_len,
            now,
            sample,
        ).rtt_prefers_udp
    }

    pub open spec fn with_command(self, command: Command) -> StreamModel {
        StreamModel { commands: self.commands.push(command), ..self }
    }

    /// The model after the reader of the reliable lane has ended.
    pub open spec fn reader_ended(self) -> StreamModel {
        StreamModel {
            send_closed: true,
            registered: false,
            closing: true,
            reliable_reader_running: false,
            ..self
        }
    }

    /// The model after the writer of the reliable lane has ended. A `terminal` end also stops the
    /// datagrams.
    pub open spec fn writer_ended(self, terminal: bool) -> StreamModel {
        StreamModel {
            send_closed: true,
            registered: self.registered && !terminal,
            writer_running: false,
            ..self
        }
    }
}

/// What the sender of a packet does next.
#[derive(Clone, Copy, Debug, PartialEq, Eq, Structural)]
pub enum SendStep {
    /// Queue the frame on the reliable lane and wait until it is written.
    Reliable,
    /// Offer the packet to the bypass.
    Datagram,
    /// Offer the packet to the reliable lane, without waiting.
    ReliableFallback,
}

/// What the writer of the reliable lane does next.
#[derive(Clone, Debug, PartialEq, Eq)]
pub enum WriterStep {
    Wait,
    Write { encoded: Vec<u8>, awaited: bool },
    ShutDown,
    Stop,
}

/// What a poll for the end of the close finds.
#[derive(Clone, Copy, Debug, PartialEq, Eq, Structural)]
pub enum CloseStep {
    Pending,
    Done,
    Failed(UdpPacketStreamError),
}

/// What a reader of packets does next.
#[derive(Clone, Debug, PartialEq, Eq)]
pub enum PollStep {
    /// The stream is over.
    End,
    /// Wait for a packet.
    Pending,
    /// Let other tasks run, then poll again.
    YieldNow,
    /// Decode this packet.
    Decode(IncomingPacket),
}

/// What follows from the attempt to decode a packet.
#[derive(Clone, Copy, Debug, PartialEq, Eq, Structural)]
pub enum DecodeStep {
    /// Hand the packet to the application.
    Yield,
    /// The packet is dropped: go on with the next one.
    Skip,
    /// The stream is over.
    End,
}

/// The state that the tasks of one packet stream share.
pub struct QomtPacketStream {
    association_id: u64,
    close_state: ReliableCloseState,
    send_closed: bool,
    closing: bool,
    registered: bool,
    writer_running: bool,
    reliable_reader_running: bool,
    datagram_reader_running: bool,
    close_result: Option<Result<(), Option<i32>>>,
    commands: VecDeque<ReliableCommand>,
    incoming: VecDeque<IncomingPacket>,
    stats: QomtPacketStreamStats,
    sampled_at: Option<TimeSpan>,
    rtt_prefers_udp: bool,
    read_closed: bool,
}

impl View for QomtPacketStream {
    type V = StreamModel;

    closed spec fn view(&self) -> StreamModel {
        StreamModel {
            association_id: self.association_id,
            close_state: self.close_state,
            send_closed: self.send_closed,
            closing: self.closing,
            registered: self.registered,
            writer_running: self.writer_running,
            reliable_reader_running: self.reliable_reader_running,
            datagram_reader_running: self.datagram_reader_running,
            close_result: self.close_result,
            commands: self.commands@.map_values(|command: ReliableCommand| command@),
            incoming: self.incoming@.map_values(|packet: IncomingPacket| packet@),
            stats: self.stats,
            sampled_at: self.sampled_at,
            rtt_prefers_udp: self.rtt_prefers_udp,
            read_closed: self.read_closed,
        }
    }
}

/// The bytes that acknowledge readiness.
pub fn ready_bytes() -> (bytes: [u8; 4])
    ensures
        bytes@ == ready_acknowledgement(),
{
    let bytes: [u8; 4] = [81, 80, 83, 49];
    assert(bytes@ =~= ready_acknowledgement());
    bytes
}

/// Whether the peer acknowledged as it should.
pub fn check_ready(bytes: &[u8]) -> (result: Result<(), UdpPacketStreamError>)
    ensures
        match result {
            Ok(_) => bytes@ == ready_acknowledgement(),
            Err(error) => bytes@ != ready_acknowledgement() && error
                == UdpPacketStreamError::InvalidReady,
        },
{
    let expected = ready_bytes();
    if crate::text::bytes_equal(bytes, expected.as_slice()) {
        Ok(())
    } else {
        Err(UdpPacketStreamError::InvalidReady)
    }
}

/// Whether an encoded packet is short enough.
pub fn check_frame(encoded_len: usize) -> (result: Result<(), UdpPacketStreamError>)
    ensures
        match result {
            Ok(_) => encoded_len <= MAX_QOMT_PACKET_FRAME_SIZE,
            Err(error) => encoded_len > MAX_QOMT_PACKET_FRAME_SIZE && error
                == UdpPacketStreamError::FrameTooLarge(encoded_len),
        },
{
    if encoded_len > MAX_QOMT_PACKET_FRAME_SIZE {
        Err(UdpPacketStreamError::FrameTooLarge(encoded_len))
    } else {
        Ok(())
    }
}

impl QomtPacketStream {
    /// A packet stream whose association was just registered.
    pub fn new(association_id: u64) -> (stream: Self)
        ensures
            stream@ == StreamModel::initial(association_id),
            stream@.valid(),
    {
        let stream = QomtPacketStream {
            association_id,
            close_state: ReliableCloseState::Open,
            send_closed: false,
            closing: false,
            registered: true,
            writer_running: true,
            reliable_reader_running: true,
            datagram_reader_running: true,
            close_result: None,
            commands: VecDeque::new(),
            incoming: VecDeque::new(),
            stats: QomtPacketStreamStats::default(),
            sampled_at: None,
            rtt_prefers_udp: false,
            read_closed: false,
        };
        assert(stream@ =~= StreamModel::initial(association_id));
        stream
    }

    pub fn association_id(&self) -> (id: u64)
        ensures
            id == self@.association_id,
    {
        self.association_id
    }

    pub fn stats(&self) -> (stats: QomtPacketStreamStats)
        ensures
            stats == self@.stats,
    {
        self.stats
    }

    /// Whether the association still receives datagrams.
    pub fn is_registered(&self) -> (result: bool)
        ensures
            result == self@.registered,
    {
        self.registered
    }

    pub fn is_send_closed(&self) -> (result: bool)
        ensures
            result == self@.sending_over(),
    {
        self.send_closed || !matches!(self.close_state, ReliableCloseState::Open)
            || !self.writer_running
    }

    /// The first step of sending a packet. `max_payload_len` is what the bypass takes and
    /// `sample` what is known of the paths.
    pub fn start_send(
        &mut self,
        encoded_len: usize,
        delivery: QomtPacketDelivery,
        max_payload_len: Option<usize>,
        now: TimeSpan,
        sample: PathSample,
    ) -> (result: Result<SendStep, UdpPacketStreamError>)
        requires
            old(self)@.valid(),
        ensures
            final(self)@.valid(),
            if old(self)@.sending_over() {
                result == Err::<SendStep, _>(UdpPacketStreamError::Closed) && final(self)@
                    == old(self)@
            } else if encoded_len > MAX_QOMT_PACKET_FRAME_SIZE {
                result == Err::<SendStep, _>(UdpPacketStreamError::FrameTooLarge(encoded_len))
                    && final(self)@ == old(self)@
            } else if delivery == QomtPacketDelivery::Reliable {
                result == Ok::<_, UdpPacketStreamError>(SendStep::Reliable) && final(self)@
                    == old(self)@
            } else {
                &&& final(self)@ == old(self)@.sampled(
                    encoded_len as int,
                    max_payload_len,
                    now,
                    sample,
                )
                &&& result == Ok::<_, UdpPacketStreamError>(
                    if old(self)@.uses_udp(encoded_len as int, max_payload_len, now, sample) {
                        SendStep::Datagram
                    } else {
                        SendStep::ReliableFallback
                    },
                )
            },
    {
        if self.is_send_closed() {
            return Err(UdpPacketStreamError::Closed);
        }
        if encoded_len > MAX_QOMT_PACKET_FRAME_SIZE {
            return Err(UdpPacketStreamError::FrameTooLarge(encoded_len));
        }
        match delivery {
            QomtPacketDelivery::Reliable => Ok(SendStep::Reliable),
            QomtPacketDelivery::BestEffort => {
                if self.should_use_udp(encoded_len, max_payload_len, now, sample) {
                    Ok(SendStep::Datagram)
                } else {
                    Ok(SendStep::ReliableFallback)
                }
            },
        }
    }

    /// Whether a packet uses the bypass.
    pub fn should_use_udp(
        &mut self,
        encoded_len: usize,
        max_payload_len: Option<usize>,
        now: TimeSpan,
        sample: PathSample,
    ) -> (result: bool)
        requires
            old(self)@.valid(),
        ensures
            final(self)@.valid(),
            result == old(self)@.uses_udp(encoded_len as int, max_payload_len, now, sample),
            final(self)@ == old(self)@.sampled(
                encoded_len as int,
                max_payload_len,
                now,
                sample,
            ),
    {
        let maximum: usize = match max_payload_len {
            Some(maximum) => maximum,
            None => return false,
        };
        if encoded_len > maximum {
            return false;
        }
        if encoded_len >= UDP_LARGE_PACKET_THRESHOLD {
            return true;
        }
        let due = match self.sampled_at {
            None => true,
            Some(at) => now.nanos >= at.nanos && now.nanos - at.nanos
                >= PATH_METRICS_SAMPLE_INTERVAL_NANOS,
        };
        if due {
            self.sampled_at = Some(now);
            self.rtt_prefers_udp = sample.rtt_prefers_udp();
        }
        self.rtt_prefers_udp
    }

    /// Takes in what the bypass did with a packet: the end of the matter, or `None` where the
    /// reliable lane is tried.
    pub fn on_datagram_outcome(&mut self, outcome: QomtDatagramSendOutcome) -> (result: Option<
        QomtPacketSendOutcome,
    >)
        requires
            old(self)@.valid(),
        ensures
            final(self)@.valid(),
            match outcome {
                QomtDatagramSendOutcome::Queued => result == Some(
                    QomtPacketSendOutcome::DatagramQueued,
                ) && final(self)@ == (StreamModel {
                    stats: QomtPacketStreamStats {
                        datagram_queued: bumped(old(self)@.stats.datagram_queued),
                        ..old(self)@.stats
                    },
                    ..old(self)@
                }),
                QomtDatagramSendOutcome::QueueFull => result == Some(
                    QomtPacketSendOutcome::Dropped(QomtPacketDropReason::UdpQueueFull),
                ) && final(self)@ == (StreamModel {
                    stats: QomtPacketStreamStats {
                        dropped_udp_queue_full: bumped(old(self)@.stats.dropped_udp_queue_full),
                        ..old(self)@.stats
                    },
                    ..old(self)@
                }),
                _ => result is None && final(self)@ == old(self)@,
            },
    {
        match outcome {
            QomtDatagramSendOutcome::Queued => {
                self.stats.datagram_queued = bump(self.stats.datagram_queued);
                Some(QomtPacketSendOutcome::DatagramQueued)
            },
            QomtDatagramSendOutcome::QueueFull => {
                self.stats.dropped_udp_queue_full = bump(self.stats.dropped_udp_queue_full);
                Some(QomtPacketSendOutcome::Dropped(QomtPacketDropReason::UdpQueueFull))
            },
            QomtDatagramSendOutcome::Unavailable | QomtDatagramSendOutcome::TooLarge
            | QomtDatagramSendOutcome::Failed(_) => None,
        }
    }

    fn push_command(&mut self, command: ReliableCommand)
        requires
            old(self)@.valid(),
            old(self)@.commands.len() < QOMT_RELIABLE_PACKET_QUEUE_CAPACITY,
        ensures
            final(self)@.valid(),
            final(self)@ == old(self)@.with_command(command@),
    {
        let ghost held = command@;
        self.commands.push_back(command);
        assert(self@.commands =~= old(self)@.commands.push(held));
    }

    /// Offers a best-effort packet to the reliable lane: it is queued, or dropped where the queue
    /// is full. A packet that was started is still taken when the reader has ended meanwhile, as
    /// long as the lane is there.
    pub fn try_reliable(&mut self, encoded: Vec<u8>) -> (result: Result<
        QomtPacketSendOutcome,
        UdpPacketStreamError,
    >)
        requires
            old(self)@.valid(),
        ensures
            final(self)@.valid(),
            if old(self)@.lane_over() {
                result == Err::<QomtPacketSendOutcome, _>(UdpPacketStreamError::Closed)
                    && final(self)@ == old(self)@
            } else if old(self)@.commands.len() >= QOMT_RELIABLE_PACKET_QUEUE_CAPACITY {
                result == Ok::<_, UdpPacketStreamError>(
                    QomtPacketSendOutcome::Dropped(QomtPacketDropReason::ReliableFallbackQueueFull),
                ) && final(self)@ == (StreamModel {
                    stats: QomtPacketStreamStats {
                        dropped_reliable_queue_full: bumped(
                            old(self)@.stats.dropped_reliable_queue_full,
                        ),
                        ..old(self)@.stats
                    },
                    ..old(self)@
                })
            } else {
                result == Ok::<_, UdpPacketStreamError>(QomtPacketSendOutcome::ReliableQueued)
                    && final(self)@ == (StreamModel {
                    stats: QomtPacketStreamStats {
                        reliable_queued: bumped(old(self)@.stats.reliable_queued),
                        ..old(self)@.stats
                    },
                    ..old(self)@.with_command(Command::Frame(encoded@, false))
                })
            },
    {
        if !matches!(self.close_state, ReliableCloseState::Open) || !self.writer_running {
            return Err(UdpPacketStreamError::Closed);
        }
        if self.commands.len() >= QOMT_RELIABLE_PACKET_QUEUE_CAPACITY {
            self.stats.dropped_reliable_queue_full = bump(self.stats.dropped_reliable_queue_full);
            return Ok(
                QomtPacketSendOutcome::Dropped(QomtPacketDropReason::ReliableFallbackQueueFull),
            );
        }
        self.push_command(ReliableCommand::Frame { encoded, awaited: false });
        self.stats.reliable_queued = bump(self.stats.reliable_queued);
        Ok(QomtPacketSendOutcome::ReliableQueued)
    }

    /// Queues a reliable packet. `false` means that the queue is full: wait and call again.
    pub fn queue_reliable(&mut self, encoded: &[u8]) -> (result: Result<bool, UdpPacketStreamError>)
        requires
            old(self)@.valid(),
        ensures
            final(self)@.valid(),
            if !old(self)@.writer_running {
                result == Err::<bool, _>(UdpPacketStreamError::Closed) && final(self)@
                    == old(self)@
            } else if old(self)@.commands.len() >= QOMT_RELIABLE_PACKET_QUEUE_CAPACITY {
                result == Ok::<_, UdpPacketStreamError>(false) && final(self)@ == old(self)@
            } else {
                result == Ok::<_, UdpPacketStreamError>(true) && final(self)@ == (StreamModel {
                    stats: QomtPacketStreamStats {
                        reliable_queued: bumped(old(self)@.stats.reliable_queued),
                        ..old(self)@.stats
                    },
                    ..old(self)@.with_command(Command::Frame(encoded@, true))
                })
            },
    {
        if !self.writer_running {
            return Err(UdpPacketStreamError::Closed);
        }
        if self.commands.len() >= QOMT_RELIABLE_PACKET_QUEUE_CAPACITY {
            return Ok(false);
        }
        let encoded: Vec<u8> = vstd::slice::slice_to_vec(encoded);
        self.push_command(ReliableCommand::Frame { encoded, awaited: true });
        self.stats.reliable_queued = bump(self.stats.reliable_queued);
        Ok(true)
    }

    /// The next step of the writer: commands are carried out in the order in which they came.
    pub fn writer_step(&mut self) -> (step: WriterStep)
        requires
            old(self)@.valid(),
        ensures
            final(self)@.valid(),
            if old(self)@.closing {
                step is Stop && final(self)@ == old(self)@.writer_ended(true)
            } else if old(self)@.commands.len() == 0 {
                step is Wait && final(self)@ == old(self)@
            } else {
                &&& final(self)@ == (StreamModel {
                    commands: old(self)@.commands.skip(1),
                    ..old(self)@
                })
                &&& match old(self)@.commands[0] {
                    Command::Frame(bytes, waited) => step matches WriterStep::Write {
                        encoded,
                        awaited,
                    } && encoded@ == bytes && awaited == waited,
                    Command::Close => step is ShutDown,
                }
            },
    {
        if self.closing {
            self.end_writer(true);
            return WriterStep::Stop;
        }
        match self.commands.pop_front() {
            None => WriterStep::Wait,
            Some(command) => {
                assert(self@.commands =~= old(self)@.commands.skip(1));
                assert(command@ == old(self)@.commands[0]);
                match command {
                    ReliableCommand::Frame { encoded, awaited } => WriterStep::Write {
                        encoded,
                        awaited,
                    },
                    ReliableCommand::Close => WriterStep::ShutDown,
                }
            },
        }
    }

    fn end_writer(&mut self, terminal: bool)
        requires
            old(self)@.valid(),
        ensures
            final(self)@.valid(),
            final(self)@ == old(self)@.writer_ended(terminal),
    {
        self.send_closed = true;
        if terminal {
            self.registered = false;
        }
        self.writer_running = false;
    }

    /// A frame was written, or could not be. Returns whether the writer goes on.
    pub fn on_frame_written(&mut self, written: bool) -> (go_on: bool)
        requires
            old(self)@.valid(),
        ensures
            final(self)@.valid(),
            go_on == written,
            final(self)@ == if written {
                old(self)@
            } else {
                (StreamModel { closing: true, ..old(self)@ }).writer_ended(true)
            },
    {
        if !written {
            self.closing = true;
            self.end_writer(true);
        }
        written
    }

    /// The reliable lane was shut down on request, or could not be. The writer ends either way;
    /// after an orderly shutdown datagrams may still come.
    pub fn on_shut_down(&mut self, result: Result<(), Option<i32>>)
        requires
            old(self)@.valid(),
        ensures
            final(self)@.valid(),
            final(self)@ == (StreamModel {
                close_result: Some(result),
                closing: old(self)@.closing || result is Err,
                ..old(self)@.writer_ended(result is Err)
            }),
    {
        let terminal = result.is_err();
        if terminal {
            self.closing = true;
        }
        self.close_result = Some(result);
        self.end_writer(terminal);
    }

    /// Takes in what the reader of the reliable lane found. Returns whether it goes on; `None`
    /// means that the application has to take packets first.
    pub fn on_reliable_read(&mut self, read: FrameRead) -> (go_on: Option<bool>)
        requires
            old(self)@.valid(),
        ensures
            final(self)@.valid(),
            if old(self)@.closing {
                go_on == Some(false) && final(self)@ == old(self)@.reader_ended()
            } else {
                match read {
                    FrameRead::NeedMoreData => go_on == Some(true) && final(self)@ == old(self)@,
                    FrameRead::Packet(encoded) => if old(self)@.incoming.len()
                        >= QOMT_INCOMING_PACKET_QUEUE_CAPACITY {
                        go_on is None && final(self)@ == old(self)@
                    } else {
                        go_on == Some(true) && final(self)@ == (StreamModel {
                            incoming: old(self)@.incoming.push((IncomingLane::Reliable, encoded@)),
                            ..old(self)@
                        })
                    },
                    _ => go_on == Some(false) && final(self)@ == old(self)@.reader_ended(),
                }
            },
    {
        if self.closing {
            self.end_reader();
            return Some(false);
        }
        match read {
            FrameRead::NeedMoreData => Some(true),
            FrameRead::Packet(encoded) => {
                if self.incoming.len() >= QOMT_INCOMING_PACKET_QUEUE_CAPACITY {
                    return None;
                }
                let ghost held = encoded@;
                self.incoming.push_back(IncomingPacket { lane: IncomingLane::Reliable, encoded });
                assert(self@.incoming =~= old(self)@.incoming.push((IncomingLane::Reliable, held)));
                Some(true)
            },
            FrameRead::End | FrameRead::Truncated | FrameRead::TooLarge(_) => {
                self.end_reader();
                Some(false)
            },
        }
    }

    fn end_reader(&mut self)
        requires
            old(self)@.valid(),
        ensures
            final(self)@.valid(),
            final(self)@ == old(self)@.reader_ended(),
    {
        self.send_closed = true;
        self.registered = false;
        self.closing = true;
        self.reliable_reader_running = false;
    }

    /// Takes a datagram of the association in. It is dropped where the application is behind.
    pub fn on_datagram(&mut self, encoded: Vec<u8>)
        requires
            old(self)@.valid(),
        ensures
            final(self)@.valid(),
            final(self)@ == if old(self)@.incoming.len() < QOMT_INCOMING_PACKET_QUEUE_CAPACITY {
                StreamModel {
                    incoming: old(self)@.incoming.push((IncomingLane::Datagram, encoded@)),
                    ..old(self)@
                }
            } else {
                StreamModel {
                    stats: QomtPacketStreamStats {
                        dropped_incoming_datagram_queue_full: bumped(
                            old(self)@.stats.dropped_incoming_datagram_queue_full,
                        ),
                        ..old(self)@.stats
                    },
                    ..old(self)@
                }
            },
    {
        if self.incoming.len() >= QOMT_INCOMING_PACKET_QUEUE_CAPACITY {
            self.stats.dropped_incoming_datagram_queue_full = bump(
                self.stats.dropped_incoming_datagram_queue_full,
            );
            return;
        }
        let ghost held = encoded@;
        self.incoming.push_back(IncomingPacket { lane: IncomingLane::Datagram, encoded });
        assert(self@.incoming =~= old(self)@.incoming.push((IncomingLane::Datagram, held)));
    }

    /// Whether the reader of datagrams is to stop.
    pub fn is_closing(&self) -> (result: bool)
        ensures
            result == self@.closing,
    {
        self.closing
    }

    /// The reader of datagrams ended.
    pub fn datagram_reader_ended(&mut self)
        requires
            old(self)@.valid(),
        ensures
            final(self)@.valid(),
            final(self)@ == (StreamModel { datagram_reader_running: false, ..old(self)@ }),
    {
        self.datagram_reader_running = false;
    }

    /// One step of a poll for a packet, after `skipped` packets were skipped in this poll.
    pub fn poll_step(&mut self, skipped: usize) -> (step: PollStep)
        requires
            old(self)@.valid(),
        ensures
            final(self)@.valid(),
            if old(self)@.read_closed {
                step is End && final(self)@ == old(self)@
            } else if skipped >= MAX_MALFORMED_DATAGRAMS_PER_POLL {
                step is YieldNow && final(self)@ == old(self)@
            } else if old(self)@.incoming.len() > 0 {
                &&& step matches PollStep::Decode(packet)
                &&& packet@ == old(self)@.incoming[0]
                &&& final(self)@ == (StreamModel {
                    incoming: old(self)@.incoming.skip(1),
                    ..old(self)@
                })
            } else if !old(self)@.reliable_reader_running && !old(self)@.datagram_reader_running {
                step is End && final(self)@ == (StreamModel { read_closed: true, ..old(self)@ })
            } else {
                step is Pending && final(self)@ == old(self)@
            },
    {
        if self.read_closed {
            return PollStep::End;
        }
        if skipped >= MAX_MALFORMED_DATAGRAMS_PER_POLL {
            return PollStep::YieldNow;
        }
        match self.incoming.pop_front() {
            Some(packet) => {
                assert(self@.incoming =~= old(self)@.incoming.skip(1));
                assert(packet@ == old(self)@.incoming[0]);
                PollStep::Decode(packet)
            },
            None => {
                if !self.reliable_reader_running && !self.datagram_reader_running {
                    self.read_closed = true;
                    PollStep::End
                } else {
                    PollStep::Pending
                }
            },
        }
    }

    /// Takes in whether a packet could be decoded. A malformed datagram is dropped; a malformed
    /// packet on the reliable lane ends the stream.
    pub fn on_decoded(&mut self, lane: IncomingLane, decoded: bool) -> (step: DecodeStep)
        requires
            old(self)@.valid(),
        ensures
            final(self)@.valid(),
            match (lane, decoded) {
                (IncomingLane::Reliable, true) => step == DecodeStep::Yield && final(self)@ == (
                StreamModel {
                    stats: QomtPacketStreamStats {
                        received_reliable: bumped(old(self)@.stats.received_reliable),
                        ..old(self)@.stats
                    },
                    ..old(self)@
                }),
                (IncomingLane::Datagram, true) => step == DecodeStep::Yield && final(self)@ == (
                StreamModel {
                    stats: QomtPacketStreamStats {
                        received_datagram: bumped(old(self)@.stats.received_datagram),
                        ..old(self)@.stats
                    },
                    ..old(self)@
                }),
                (IncomingLane::Reliable, false) => step == DecodeStep::End && final(self)@ == (
                StreamModel {
                    send_closed: true,
                    registered: false,
                    closing: true,
                    read_closed: true,
                    ..old(self)@
                }),
                (IncomingLane::Datagram, false) => step == DecodeStep::Skip && final(self)@ == (
                StreamModel {
                    stats: QomtPacketStreamStats {
                        dropped_malformed_datagram: bumped(
                            old(self)@.stats.dropped_malformed_datagram,
                        ),
                        ..old(self)@.stats
                    },
                    ..old(self)@
                }),
            },
    {
        match lane {
            IncomingLane::Reliable => {
                if decoded {
                    self.stats.received_reliable = bump(self.stats.received_reliable);
                    DecodeStep::Yield
                } else {
                    self.send_closed = true;
                    self.registered = false;
                    self.closing = true;
                    self.read_closed = true;
                    DecodeStep::End
                }
            },
            IncomingLane::Datagram => {
                if decoded {
                    self.stats.received_datagram = bump(self.stats.received_datagram);
                    DecodeStep::Yield
                } else {
                    self.stats.dropped_malformed_datagram = bump(
                        self.stats.dropped_malformed_datagram,
                    );
                    DecodeStep::Skip
                }
            },
        }
    }

    /// One poll of an orderly close. The close command goes behind every frame that was queued.
    pub fn poll_close(&mut self) -> (step: CloseStep)
        requires
            old(self)@.valid(),
        ensures
            final(self)@.valid(),
            match old(self)@.close_state {
                ReliableCloseState::Closed => step == CloseStep::Done && final(self)@
                    == old(self)@,
                ReliableCloseState::Waiting => match old(self)@.close_result {
                    Some(Ok(_)) => step == CloseStep::Done && final(self)@ == (StreamModel {
                        close_state: ReliableCloseState::Closed,
                        ..old(self)@
                    }),
                    Some(Err(code)) => step == CloseStep::Failed(UdpPacketStreamError::Io(code))
                        && final(self)@ == (StreamModel {
                        close_state: ReliableCloseState::Closed,
                        ..old(self)@
                    }),
                    None => if old(self)@.writer_running {
                        step == CloseStep::Pending && final(self)@ == old(self)@
                    } else {
                        step == CloseStep::Failed(UdpPacketStreamError::Closed) && final(self)@
                            == (StreamModel {
                            close_state: ReliableCloseState::Closed,
                            ..old(self)@
                        })
                    },
                },
                _ => if !old(self)@.writer_running {
                    step == CloseStep::Failed(UdpPacketStreamError::Closed) && final(self)@ == (
                    StreamModel {
                        close_state: ReliableCloseState::Closed,
                        send_closed: old(self)@.send_closed || old(self)@.close_state
                            == ReliableCloseState::Open,
                        ..old(self)@
                    })
                } else if old(self)@.commands.len() >= QOMT_RELIABLE_PACKET_QUEUE_CAPACITY {
                    step == CloseStep::Pending && final(self)@ == (StreamModel {
                        close_state: ReliableCloseState::Enqueueing,
                        send_closed: old(self)@.send_closed || old(self)@.close_state
                            == ReliableCloseState::Open,
                        ..old(self)@
                    })
                } else {
                    step == CloseStep::Pending && final(self)@ == (StreamModel {
                        close_state: ReliableCloseState::Waiting,
                        send_closed: old(self)@.send_closed || old(self)@.close_state
                            == ReliableCloseState::Open,
                        close_result: None,
                        ..old(self)@.with_command(Command::Close)
                    })
                },
            },
    {
        match self.close_state {
            ReliableCloseState::Closed => CloseStep::Done,
            ReliableCloseState::Waiting => match self.close_result {
                Some(Ok(_)) => {
                    self.close_state = ReliableCloseState::Closed;
                    CloseStep::Done
                },
                Some(Err(code)) => {
                    self.close_state = ReliableCloseState::Closed;
                    CloseStep::Failed(UdpPacketStreamError::Io(code))
                },
                None => {
                    if self.writer_running {
                        CloseStep::Pending
                    } else {
                        self.close_state = ReliableCloseState::Closed;
                        CloseStep::Failed(UdpPacketStreamError::Closed)
                    }
                },
            },
            ReliableCloseState::Open | ReliableCloseState::Enqueueing => {
                if matches!(self.close_state, ReliableCloseState::Open) {
                    self.send_closed = true;
                }
                if !self.writer_running {
                    self.close_state = ReliableCloseState::Closed;
                    return CloseStep::Failed(UdpPacketStreamError::Closed);
                }
                if self.commands.len() >= QOMT_RELIABLE_PACKET_QUEUE_CAPACITY {
                    self.close_state = ReliableCloseState::Enqueueing;
                    return CloseStep::Pending;
                }
                self.push_command(ReliableCommand::Close);
                self.close_state = ReliableCloseState::Waiting;
                self.close_result = None;
                CloseStep::Pending
            },
        }
    }

    /// The packet stream is let go: its association receives nothing from now on.
    pub fn release(&mut self)
        requires
            old(self)@.valid(),
        ensures
            final(self)@.valid(),
            final(self)@ == (StreamModel { registered: false, ..old(self)@ }),
    {
        self.registered = false;
    }
}

/// Once a close was asked for, or the reader or the writer of the reliable lane has ended, no
/// packet can be started. Once a close was asked for or the writer has ended, the reliable lane
/// takes no packet that was started before either.
pub proof fn law_closed_stream_starts_no_packet(model: StreamModel, terminal: bool)
    ensures
        model.reader_ended().sending_over(),
        model.writer_ended(terminal).sending_over(),
        model.writer_ended(terminal).lane_over(),
        model.close_state != ReliableCloseState::Open ==> model.sending_over()
            && model.lane_over(),
{
}

/// A frame queued before the close command is written before the lane is shut down.
pub proof fn law_close_waits_for_queued_frames(model: StreamModel, index: int)
    requires
        0 <= index < model.commands.len(),
    ensures
        model.with_command(Command::Close).commands[index] == model.commands[index],
        model.with_command(Command::Close).commands.last() == Command::Close,
{
}

/// A packet that does not fit the bypass never uses it, and a long packet that fits always does.
pub proof fn law_long_packets_use_the_bypass(
    model: StreamModel,
    encoded_len: int,
    max_payload_len: Option<usize>,
    now: TimeSpan,
    sample: PathSample,
)
    requires
        encoded_len >= UDP_LARGE_PACKET_THRESHOLD,
    ensures
        model.uses_udp(encoded_len, max_payload_len, now, sample) == (
        max_payload_len is Some && encoded_len <= max_payload_len->Some_0),
{
}

/// A packet uses the bypass only where it fits. From 1024 bytes on it then always does; a shorter
/// one goes by the round trips: by a fresh comparison where the last is 100 milliseconds old or
/// missing, else by the last one.
pub proof fn law_packets_choose_their_path(
    stream: &mut QomtPacketStream,
    encoded_len: usize,
    max_payload_len: Option<usize>,
    now: TimeSpan,
    sample: PathSample,
    chosen: bool,
)
    requires
        old(stream)@.valid(),
        call_ensures(
            QomtPacketStream::should_use_udp,
            (stream, encoded_len, max_payload_len, now, sample),
            chosen,
        ),
    ensures
        max_payload_len is None || encoded_len > max_payload_len->Some_0 ==> !chosen,
        max_payload_len is Some && encoded_len <= max_payload_len->Some_0 && encoded_len >= 1024
            ==> chosen,
        max_payload_len is Some && encoded_len <= max_payload_len->Some_0 && encoded_len < 1024
            ==> (match old(stream)@.sampled_at {
            Some(at) => if now.nanos >= at.nanos + 100_000_000 {
                chosen == sample.prefers_udp() && final(stream)@.sampled_at == Some(now)
            } else {
                chosen == old(stream)@.rtt_prefers_udp && final(stream)@.sampled_at == Some(at)
            },
            None => chosen == sample.prefers_udp() && final(stream)@.sampled_at == Some(now),
        }),
        final(stream)@.commands == old(stream)@.commands,
        final(stream)@.incoming == old(stream)@.incoming,
        final(stream)@.stats == old(stream)@.stats,
{
}

/// Right after a comparison of the round trips, every short packet that fits goes the same way.
pub proof fn law_comparisons_are_kept(
    first: &mut QomtPacketStream,
    second: &mut QomtPacketStream,
    length: usize,
    other_length: usize,
    maximum: usize,
    now: TimeSpan,
    later: TimeSpan,
    sample: PathSample,
    other_sample: PathSample,
    chosen: bool,
    chosen_then: bool,
)
    requires
        old(first)@.valid(),
        length <= maximum,
        other_length <= maximum,
        length < 1024,
        other_length < 1024,
        old(first)@.sampled_at is None,
        now.nanos <= later.nanos < now.nanos + 100_000_000,
        call_ensures(
            QomtPacketStream::should_use_udp,
            (first, length, Some(maximum), now, sample),
            chosen,
        ),
        old(second)@ == final(first)@,
        call_ensures(
            QomtPacketStream::should_use_udp,
            (second, other_length, Some(maximum), later, other_sample),
            chosen_then,
        ),
    ensures
        chosen == sample.prefers_udp(),
        chosen_then == chosen,
{
}

/// A send is refused exactly where the stream is closed for sending or the packet is longer than
/// 16383 bytes. A reliable one takes the reliable lane; a best-effort one is offered to the bypass
/// or, without waiting, to the reliable lane.
pub proof fn law_sends_take_the_lane_they_ask_for(
    stream: &mut QomtPacketStream,
    encoded_len: usize,
    delivery: QomtPacketDelivery,
    max_payload_len: Option<usize>,
    now: TimeSpan,
    sample: PathSample,
    result: Result<SendStep, UdpPacketStreamError>,
)
    requires
        old(stream)@.valid(),
        call_ensures(
            QomtPacketStream::start_send,
            (stream, encoded_len, delivery, max_payload_len, now, sample),
            result,
        ),
    ensures
        ({
            let over = old(stream)@.send_closed || old(stream)@.close_state
                != ReliableCloseState::Open || !old(stream)@.writer_running;
            &&& over ==> result == Err::<SendStep, _>(UdpPacketStreamError::Closed)
            &&& !over && encoded_len > 16_383 ==> result == Err::<SendStep, _>(
                UdpPacketStreamError::FrameTooLarge(encoded_len),
            )
            &&& !over && encoded_len <= 16_383 ==> result is Ok && (result->Ok_0
                == SendStep::Reliable <==> delivery == QomtPacketDelivery::Reliable)
            &&& result == Ok::<_, UdpPacketStreamError>(SendStep::Datagram) ==> max_payload_len
                is Some && encoded_len <= max_payload_len->Some_0
        }),
{
}

/// What the bypass could not take at all goes on to the reliable lane; what its queue had no room
/// for is dropped. Each outcome is counted once.
pub proof fn law_bypass_outcomes_are_counted(
    stream: &mut QomtPacketStream,
    outcome: QomtDatagramSendOutcome,
    result: Option<QomtPacketSendOutcome>,
)
    requires
        old(stream)@.valid(),
        call_ensures(QomtPacketStream::on_datagram_outcome, (stream, outcome), result),
    ensures
        result is None <==> outcome != QomtDatagramSendOutcome::Queued && outcome
            != QomtDatagramSendOutcome::QueueFull,
        outcome == QomtDatagramSendOutcome::Queued ==> result == Some(
            QomtPacketSendOutcome::DatagramQueued,
        ),
        outcome == QomtDatagramSendOutcome::QueueFull ==> result matches Some(
            QomtPacketSendOutcome::Dropped(_),
        ),
        old(stream)@.stats.datagram_queued < u64::MAX && outcome
            == QomtDatagramSendOutcome::Queued ==> final(stream)@.stats.datagram_queued
            == old(stream)@.stats.datagram_queued + 1,
        outcome != QomtDatagramSendOutcome::Queued ==> final(stream)@.stats.datagram_queued
            == old(stream)@.stats.datagram_queued,
        old(stream)@.stats.dropped_udp_queue_full < u64::MAX && outcome
            == QomtDatagramSendOutcome::QueueFull ==> final(stream)@.stats.dropped_udp_queue_full == old(stream)@.stats.dropped_udp_queue_full + 1,
        final(stream)@.commands == old(stream)@.commands,
{
}

/// Frames that were queued leave the reliable lane in their order, unchanged: what is queued last
/// is written when everything before it is.
pub proof fn law_queued_frames_are_written_in_order(
    queued: &mut QomtPacketStream,
    encoded: Vec<u8>,
    result: Result<QomtPacketSendOutcome, UdpPacketStreamError>,
    written: &mut QomtPacketStream,
    step: WriterStep,
)
    requires
        old(queued)@.valid(),
        !old(queued)@.closing,
        call_ensures(QomtPacketStream::try_reliable, (queued, encoded), result),
        result == Ok::<_, UdpPacketStreamError>(QomtPacketSendOutcome::ReliableQueued),
        old(written)@ == final(queued)@,
        call_ensures(QomtPacketStream::writer_step, (written,), step),
    ensures
        old(queued)@.commands.len() == 0 ==> (step matches WriterStep::Write {
            encoded: bytes,
            awaited,
        } && bytes@ == encoded@ && !awaited),
        old(queued)@.commands.len() > 0 ==> (match old(queued)@.commands[0] {
            Command::Frame(bytes, waited) => step matches WriterStep::Write {
                encoded: sent,
                awaited,
            } && sent@ == bytes && awaited == waited,
            Command::Close => step is ShutDown,
        }),
        old(queued)@.commands.len() > 0 ==> final(written)@.commands.last() == Command::Frame(
            encoded@,
            false,
        ),
        final(written)@.commands.len() == old(queued)@.commands.len(),
{
}

/// A best-effort frame is dropped exactly where 16 frames wait already, without a trace but in the
/// count; a reliable one waits for room instead.
pub proof fn law_full_lanes_drop_only_best_effort_frames(
    best_effort: &mut QomtPacketStream,
    encoded: Vec<u8>,
    result: Result<QomtPacketSendOutcome, UdpPacketStreamError>,
    reliable: &mut QomtPacketStream,
    bytes: &[u8],
    queued: Result<bool, UdpPacketStreamError>,
)
    requires
        old(best_effort)@.valid(),
        old(reliable)@ == old(best_effort)@,
        old(best_effort)@.writer_running,
        old(best_effort)@.close_state == ReliableCloseState::Open,
        call_ensures(QomtPacketStream::try_reliable, (best_effort, encoded), result),
        call_ensures(QomtPacketStream::queue_reliable, (reliable, bytes), queued),
    ensures
        old(best_effort)@.commands.len() == 16 ==> (result matches Ok(
            QomtPacketSendOutcome::Dropped(_),
        )) && final(best_effort)@.commands == old(best_effort)@.commands,
        old(best_effort)@.commands.len() < 16 ==> result == Ok::<_, UdpPacketStreamError>(
            QomtPacketSendOutcome::ReliableQueued,
        ),
        queued == Ok::<_, UdpPacketStreamError>(old(reliable)@.commands.len() < 16),
        queued == Ok::<_, UdpPacketStreamError>(true) ==> final(reliable)@.commands
            == old(reliable)@.commands.push(Command::Frame(bytes@, true)),
        queued == Ok::<_, UdpPacketStreamError>(false) ==> final(reliable)@ == old(reliable)@,
{
}

/// A datagram that came in is handed to the application as it came, behind what came before it;
/// where 16 packets wait already it is dropped and counted.
pub proof fn law_incoming_datagrams_are_handed_on(
    received: &mut QomtPacketStream,
    encoded: Vec<u8>,
    polled: &mut QomtPacketStream,
    step: PollStep,
)
    requires
        old(received)@.valid(),
        !old(received)@.read_closed,
        call_ensures(QomtPacketStream::on_datagram, (received, encoded), ()),
        old(polled)@ == final(received)@,
        call_ensures(QomtPacketStream::poll_step, (polled, 0), step),
    ensures
        step is Decode,
        old(received)@.incoming.len() == 0 ==> step->Decode_0@ == (
            IncomingLane::Datagram,
            encoded@,
        ),
        old(received)@.incoming.len() > 0 ==> step->Decode_0@ == old(received)@.incoming[0],
        0 < old(received)@.incoming.len() < 16 ==> final(polled)@.incoming.last() == (
            IncomingLane::Datagram,
            encoded@,
        ),
        old(received)@.incoming.len() == 16 ==> final(received)@.incoming
            == old(received)@.incoming,
{
}

/// A reliable packet that came in is handed on as it came; where 16 packets wait already the reader
/// waits and nothing is lost; the end of the lane, a frame cut short and a frame too long end it.
pub proof fn law_reliable_packets_are_never_lost(
    stream: &mut QomtPacketStream,
    read: FrameRead,
    go_on: Option<bool>,
)
    requires
        old(stream)@.valid(),
        !old(stream)@.closing,
        call_ensures(QomtPacketStream::on_reliable_read, (stream, read), go_on),
    ensures
        read matches FrameRead::Packet(encoded) && old(stream)@.incoming.len() < 16 ==> go_on
            == Some(true) && final(stream)@.incoming == old(stream)@.incoming.push(
            (IncomingLane::Reliable, read->Packet_0@),
        ),
        read is Packet && old(stream)@.incoming.len() == 16 ==> go_on is None && final(stream)@
            == old(stream)@,
        read is NeedMoreData ==> go_on == Some(true) && final(stream)@ == old(stream)@,
        read is End || read is Truncated || read is TooLarge ==> go_on == Some(false)
            && !final(stream)@.registered && final(stream)@.closing && final(stream)@.send_closed
            && final(stream)@.incoming == old(stream)@.incoming,
{
}

/// A datagram that cannot be decoded is skipped and the stream goes on; a reliable packet that
/// cannot be decoded ends the stream; a decoded packet is handed to the application.
pub proof fn law_undecodable_packets(
    stream: &mut QomtPacketStream,
    lane: IncomingLane,
    decoded: bool,
    step: DecodeStep,
)
    requires
        old(stream)@.valid(),
        call_ensures(QomtPacketStream::on_decoded, (stream, lane, decoded), step),
    ensures
        step == DecodeStep::Yield <==> decoded,
        step == DecodeStep::Skip <==> !decoded && lane == IncomingLane::Datagram,
        step == DecodeStep::End <==> !decoded && lane == IncomingLane::Reliable,
        final(stream)@.read_closed == (old(stream)@.read_closed || step == DecodeStep::End),
        final(stream)@.closing == (old(stream)@.closing || step == DecodeStep::End),
        final(stream)@.send_closed == (old(stream)@.send_closed || step == DecodeStep::End),
        final(stream)@.registered == (old(stream)@.registered && step != DecodeStep::End),
        final(stream)@.incoming == old(stream)@.incoming,
        decoded && lane == IncomingLane::Reliable && old(stream)@.stats.received_reliable
            < u64::MAX ==> final(stream)@.stats.received_reliable
            == old(stream)@.stats.received_reliable + 1,
        decoded && lane == IncomingLane::Datagram && old(stream)@.stats.received_datagram
            < u64::MAX ==> final(stream)@.stats.received_datagram
            == old(stream)@.stats.received_datagram + 1,
{
}

/// The application sees the end of the stream only when nothing waits and both readers have ended,
/// and from then on always.
pub proof fn law_end_comes_after_the_last_packet(
    stream: &mut QomtPacketStream,
    step: PollStep,
    again: &mut QomtPacketStream,
    skipped: usize,
    step_then: PollStep,
)
    requires
        old(stream)@.valid(),
        !old(stream)@.read_closed,
        call_ensures(QomtPacketStream::poll_step, (stream, 0), step),
        old(again)@ == final(stream)@,
        call_ensures(QomtPacketStream::poll_step, (again, skipped), step_then),
    ensures
        step is End <==> old(stream)@.incoming.len() == 0 && !old(stream)@.reliable_reader_running
            && !old(stream)@.datagram_reader_running,
        step is Decode <==> old(stream)@.incoming.len() > 0,
        step is End ==> step_then is End,
{
}

/// A close is done when the writer has shut the lane down behind everything that was queued, and
/// fails where the writer does.
pub proof fn law_close_goes_through_the_writer(
    closing: &mut QomtPacketStream,
    first: CloseStep,
    shut: &mut QomtPacketStream,
    result: Result<(), Option<i32>>,
    closed: &mut QomtPacketStream,
    last: CloseStep,
)
    requires
        old(closing)@.valid(),
        old(closing)@.close_state == ReliableCloseState::Open,
        old(closing)@.writer_running,
        old(closing)@.commands.len() < 16,
        call_ensures(QomtPacketStream::poll_close, (closing,), first),
        old(shut)@ == final(closing)@,
        call_ensures(QomtPacketStream::on_shut_down, (shut, result), ()),
        old(closed)@ == final(shut)@,
        call_ensures(QomtPacketStream::poll_close, (closed,), last),
    ensures
        first == CloseStep::Pending,
        final(closing)@.commands == old(closing)@.commands.push(Command::Close),
        final(closing)@.send_closed,
        last == CloseStep::Done <==> result is Ok,
        result matches Err(code) ==> last == CloseStep::Failed(UdpPacketStreamError::Io(code)),
        final(closed)@.close_state == ReliableCloseState::Closed,
{
}

/// A peer that is ready answers with the four letters of the protocol's mark, and nothing else is
/// taken for it. Frames are as large as a datagram at most.
pub proof fn law_ready_peers_say_so(
    mark: [u8; 4],
    bytes: &[u8],
    ready: Result<(), UdpPacketStreamError>,
    encoded_len: usize,
    fits: Result<(), UdpPacketStreamError>,
)
    requires
        call_ensures(ready_bytes, (), mark),
        call_ensures(check_ready, (bytes,), ready),
        call_ensures(check_frame, (encoded_len,), fits),
    ensures
        mark@ == "QPS1"@.map_values(|letter: char| letter as u8),
        ready is Ok <==> bytes@ == mark@,
        ready matches Err(error) ==> error is InvalidReady,
        fits is Ok <==> encoded_len <= 16_383,
        fits matches Err(error) ==> error == UdpPacketStreamError::FrameTooLarge(encoded_len),
{
    reveal_strlit("QPS1");
    assert(mark@ =~= "QPS1"@.map_values(|letter: char| letter as u8));
}

/// A new stream is open in both directions and holds nothing.
pub proof fn law_new_streams_hold_nothing(association_id: u64, stream: QomtPacketStream)
    requires
        call_ensures(QomtPacketStream::new, (association_id,), stream),
    ensures
        stream@.association_id == association_id && stream@.close_state is Open,
        !stream@.send_closed && !stream@.read_closed && !stream@.closing,
        stream@.registered && stream@.writer_running,
        stream@.reliable_reader_running && stream@.datagram_reader_running,
        stream@.commands.len() == 0 && stream@.incoming.len() == 0,
        stream@.close_result is None && stream@.sampled_at is None && !stream@.rtt_prefers_udp,
        stream@.stats.reliable_queued == 0 && stream@.stats.datagram_queued == 0,
        stream@.stats.dropped_udp_queue_full == 0 && stream@.stats.dropped_reliable_queue_full == 0,
        stream@.stats.received_reliable == 0 && stream@.stats.received_datagram == 0,
        stream@.stats.dropped_incoming_datagram_queue_full == 0,
        stream@.stats.dropped_malformed_datagram == 0,
{
}

/// Once the tasks are told to stop, the writer stops, nothing can be sent any more and the
/// association receives no more datagrams; what waits is not written. A writer that has nothing to
/// write changes nothing.
pub proof fn law_writers_stop_when_told(stream: &mut QomtPacketStream, step: WriterStep)
    requires
        old(stream)@.valid(),
        call_ensures(QomtPacketStream::writer_step, (stream,), step),
    ensures
        old(stream)@.closing <==> step is Stop,
        step is Stop ==> !final(stream)@.writer_running && final(stream)@.send_closed
            && !final(stream)@.registered && final(stream)@.commands == old(stream)@.commands,
        step is Wait ==> final(stream)@ == old(stream)@,
        !(step is Stop) ==> final(stream)@.writer_running == old(stream)@.writer_running,
{
}

} // verus!
