//! The shared state of a QUIC connection: its streams, its progress and how it ended.
//!
//! The driver loops that own the transport call one method per step and do what it says.

use std::collections::{HashMap, VecDeque};

use vstd::prelude::*;

use super::error::{
    ConnectionError, QuicConnectionError, QuicDatagramSendError, TransportError,
};
use super::state::{State, StateUpdater, TransportPhase};
use crate::primitives::ConnectionSide;
use crate::time::TimeSpan;

verus! {

broadcast use vstd::std_specs::hash::group_hash_axioms;

/// The received datagrams that are kept for the application. Later ones are dropped.
pub const QUIC_DATAGRAM_QUEUE_CAPACITY: usize = 64;

/// The longest the send loop rests without a wakeup.
pub const SEND_DONE_BACKSTOP_NANOS: u128 = 1_000_000_000;

/// The number of stream indices that fit in a stream id.
pub const MAX_STREAM_INDEX: u64 = 0x4000_0000_0000_0000;

/// What the two tasks of a stream share.
#[derive(Clone, Copy, Debug, PartialEq, Eq, Structural)]
pub struct StreamSignals {
    /// The transport knows the stream.
    pub created: bool,
    /// The application has let go of the stream.
    pub external_dropped: bool,
    /// The tasks (one sends, one receives) that have not ended.
    pub active_tasks: usize,
}

impl StreamSignals {
    /// A stream that was just set up, with both tasks to run.
    pub open spec fn fresh(created: bool) -> StreamSignals {
        StreamSignals { created, external_dropped: false, active_tasks: 2 }
    }

    pub fn new(created: bool) -> (signals: Self)
        ensures
            signals == StreamSignals::fresh(created),
    {
        StreamSignals { created, external_dropped: false, active_tasks: 2 }
    }
}

/// A mark that a stream can carry.
#[derive(Clone, Copy, Debug, PartialEq, Eq, Structural)]
pub enum StreamMark {
    Created,
    ExternalDropped,
}

impl StreamSignals {
    pub open spec fn has(self, mark: StreamMark) -> bool {
        match mark {
            StreamMark::Created => self.created,
            StreamMark::ExternalDropped => self.external_dropped,
        }
    }
}

/// The mathematical form of a `QuicConnection`.
#[verifier::ext_equal]
pub struct ConnectionModel {
    pub side: ConnectionSide,
    pub state: State,
    pub transport_closed: bool,
    pub driver_failed: bool,
    /// The owner has not let go of the connection.
    pub alive: bool,
    pub streams: Map<u64, StreamSignals>,
    pub next_stream_index: int,
    pub send_pending: bool,
    pub last_send_progress_millis: int,
    pub last_recv_progress_millis: int,
    pub loss_delay_floor_micros: int,
    /// The received datagrams that the application has not taken, oldest first.
    pub datagrams: Seq<Seq<u8>>,
}

/// Whether `side` is the one that opened the stream.
pub open spec fn locally_initiated(side: ConnectionSide, id: u64) -> bool {
    id % 2 == side.bits()
}

impl ConnectionModel {
    /// A connection in which nothing has happened.
    pub open spec fn initial(side: ConnectionSide) -> ConnectionModel {
        ConnectionModel {
            side,
            state: State::Initial,
            transport_closed: false,
            driver_failed: false,
            alive: true,
            streams: Map::empty(),
            next_stream_index: 0,
            send_pending: false,
            last_send_progress_millis: 0,
            last_recv_progress_millis: 0,
            loss_delay_floor_micros: 0,
            datagrams: Seq::empty(),
        }
    }

    /// What holds of every connection: each stream has a task left, streams that this side
    /// opened have used-up indices, a failed connection is closed, and the datagram queue is
    /// within its capacity.
    pub open spec fn valid(self) -> bool {
        &&& forall|id: u64| #[trigger]
            self.streams.contains_key(id) ==> 1 <= self.streams[id].active_tasks <= 2
        &&& forall|id: u64| #[trigger]
            self.streams.contains_key(id) && locally_initiated(self.side, id) ==> id / 4
                < self.next_stream_index
        &&& 0 <= self.next_stream_index <= MAX_STREAM_INDEX
        &&& self.transport_closed || self.driver_failed ==> self.state == State::Closed
        &&& self.datagrams.len() <= QUIC_DATAGRAM_QUEUE_CAPACITY
    }

    pub open spec fn with_state(self, state: State) -> ConnectionModel {
        ConnectionModel { state: self.state.later(state), ..self }
    }

    pub open spec fn with_transport_closed(self) -> ConnectionModel {
        ConnectionModel { transport_closed: true, ..self.with_state(State::Closed) }
    }

    pub open spec fn with_driver_failed(self) -> ConnectionModel {
        ConnectionModel { driver_failed: true, ..self.with_state(State::Closed) }
    }

    pub open spec fn with_stream(self, id: u64, signals: StreamSignals) -> ConnectionModel {
        ConnectionModel { streams: self.streams.insert(id, signals), ..self }
    }

    /// The model after this side has opened stream `id`, which uses up the next index.
    pub open spec fn with_opened_stream(self, id: u64) -> ConnectionModel {
        ConnectionModel {
            next_stream_index: self.next_stream_index + 1,
            ..self.with_stream(id, StreamSignals::fresh(false))
        }
    }

    /// Application datagrams can be exchanged, as far as this node knows.
    pub open spec fn available(self) -> bool {
        self.alive && self.state == State::Established && !self.transport_closed
            && !self.driver_failed
    }

    pub open spec fn streams_with(self, mark: StreamMark) -> Set<u64> {
        self.streams.dom().filter(|id: u64| self.streams[id].has(mark))
    }

    /// Those of `ids` that are streams of the connection.
    pub open spec fn known(self, ids: Seq<u64>) -> Seq<u64> {
        ids.filter(|id: u64| self.streams.contains_key(id))
    }

    /// The model after one of the tasks of stream `id` has ended.
    pub open spec fn with_task_finished(self, id: u64) -> ConnectionModel {
        if !self.streams.contains_key(id) {
            self
        } else if self.streams[id].active_tasks == 1 {
            ConnectionModel { streams: self.streams.remove(id), ..self }
        } else {
            self.with_stream(
                id,
                StreamSignals {
                    active_tasks: (self.streams[id].active_tasks - 1) as usize,
                    ..self.streams[id]
                },
            )
        }
    }
}

/// The next stream id is not in use, and opening it keeps what holds of every connection.
proof fn lemma_opened_stream(model: ConnectionModel, id: u64)
    requires
        model.valid(),
        model.next_stream_index < MAX_STREAM_INDEX,
        id == model.side.stream_id(model.next_stream_index),
    ensures
        !model.streams.contains_key(id),
        model.with_opened_stream(id).valid(),
{
    assert(id / 4 == model.next_stream_index);
    assert(id % 2 == model.side.bits());
    assert(locally_initiated(model.side, id));
    assert(!model.streams.contains_key(id));
    let opened = model.with_opened_stream(id);
    assert forall|other: u64| #[trigger] opened.streams.contains_key(other) implies 1
        <= opened.streams[other].active_tasks <= 2 by {
        if other != id {
            assert(model.streams.contains_key(other));
        }
    }
    assert forall|other: u64| #[trigger]
        opened.streams.contains_key(other) && locally_initiated(opened.side, other) implies other
        / 4 < opened.next_stream_index by {
        if other != id {
            assert(model.streams.contains_key(other));
        }
    }
}

/// The transport's answer to a request for a packet to send.
#[derive(Clone, Copy, Debug, PartialEq, Eq, Structural)]
pub enum SendPoll {
    Packet { length: usize },
    Done,
    Failed,
}

/// What the send loop does next.
#[derive(Clone, Copy, Debug, PartialEq, Eq, Structural)]
pub enum SendAction {
    /// Hand a packet of this length to the underlying sink when its time has come.
    Transmit { length: usize },
    /// Rest until a wakeup, or until the deadline.
    Park { deadline: TimeSpan },
    Stop,
}

/// What became of a packet handed to the underlying sink.
#[derive(Clone, Copy, Debug, PartialEq, Eq, Structural)]
pub enum TransmitResult {
    Sent,
    Failed,
    /// The connection was closed meanwhile.
    Closed,
}

/// What ended the rest of the send loop.
#[derive(Clone, Copy, Debug, PartialEq, Eq, Structural)]
pub enum ParkEnd {
    Notified,
    /// The deadline came; the transport was told and is now in this phase.
    Deadline(TransportPhase),
    Closed,
}

/// What a readable stream asks for.
#[derive(Clone, Copy, Debug, PartialEq, Eq, Structural)]
pub enum ReadableAction {
    /// Wake the receiving task of the stream.
    WakeReceiver,
    /// The stream was opened here and is already torn down: stop reading it.
    DiscardTornDown,
    /// A stream that the peer opened: hand it to the application and start its tasks.
    Accept,
}

/// How the reader of application datagrams goes on.
#[derive(Clone, Debug, PartialEq, Eq)]
pub enum DatagramRecv {
    Ended,
    AwaitEstablished,
    AwaitDatagram,
    Datagram(Vec<u8>),
}

/// The time of the transport's own timer or of the backstop, whichever is earlier.
pub open spec fn park_deadline(now: int, timeout: Option<TimeSpan>) -> int {
    match timeout {
        Some(timeout) => if timeout.nanos < now + SEND_DONE_BACKSTOP_NANOS {
            timeout.nanos as int
        } else {
            now + SEND_DONE_BACKSTOP_NANOS
        },
        None => now + SEND_DONE_BACKSTOP_NANOS,
    }
}

/// The state that the tasks of one QUIC connection share.
pub struct QuicConnection {
    side: ConnectionSide,
    state_updater: StateUpdater,
    transport_closed: bool,
    driver_failed: bool,
    alive: bool,
    streams: HashMap<u64, StreamSignals>,
    next_stream_id_index: u64,
    underlying_send_pending: bool,
    last_underlying_send_progress_millis: u64,
    last_underlying_recv_progress_millis: u64,
    underlay_loss_delay_floor_micros: u64,
    datagrams: VecDeque<Vec<u8>>,
}

impl View for QuicConnection {
    type V = ConnectionModel;

    closed spec fn view(&self) -> ConnectionModel {
        ConnectionModel {
            side: self.side,
            state: self.state_updater@,
            transport_closed: self.transport_closed,
            driver_failed: self.driver_failed,
            alive: self.alive,
            streams: self.streams@,
            next_stream_index: self.next_stream_id_index as int,
            send_pending: self.underlying_send_pending,
            last_send_progress_millis: self.last_underlying_send_progress_millis as int,
            last_recv_progress_millis: self.last_underlying_recv_progress_millis as int,
            loss_delay_floor_micros: self.underlay_loss_delay_floor_micros as int,
            datagrams: self.datagrams@.map_values(|datagram: Vec<u8>| datagram@),
        }
    }
}

impl QuicConnection {
    pub fn new(side: ConnectionSide) -> (connection: Self)
        ensures
            connection@ == ConnectionModel::initial(side),
            connection@.valid(),
    {
        let connection = QuicConnection {
            side,
            state_updater: StateUpdater::new(),
            transport_closed: false,
            driver_failed: false,
            alive: true,
            streams: HashMap::new(),
            next_stream_id_index: 0,
            underlying_send_pending: false,
            last_underlying_send_progress_millis: 0,
            last_underlying_recv_progress_millis: 0,
            underlay_loss_delay_floor_micros: 0,
            datagrams: VecDeque::new(),
        };
        assert(connection@ =~= ConnectionModel::initial(side));
        connection
    }

    pub fn side(&self) -> (side: ConnectionSide)
        ensures
            side == self@.side,
    {
        self.side
    }

    pub fn state(&self) -> (state: State)
        ensures
            state == self@.state,
    {
        self.state_updater.state()
    }

    pub fn transport_closed(&self) -> (result: bool)
        ensures
            result == self@.transport_closed,
    {
        self.transport_closed
    }

    pub fn driver_failed(&self) -> (result: bool)
        ensures
            result == self@.driver_failed,
    {
        self.driver_failed
    }

    /// The number of streams that still have a task.
    pub fn stream_count(&self) -> (count: usize)
        ensures
            count == self@.streams.len(),
    {
        self.streams.len()
    }

    pub fn stream(&self, id: u64) -> (signals: Option<StreamSignals>)
        ensures
            match signals {
                Some(signals) => self@.streams.contains_key(id) && signals == self@.streams[id],
                None => !self@.streams.contains_key(id),
            },
    {
        match self.streams.get(&id) {
            Some(signals) => Some(*signals),
            None => None,
        }
    }

    /// Follows the phase of the transport.
    pub fn update_state(&mut self, phase: TransportPhase) -> (state: State)
        requires
            old(self)@.valid(),
        ensures
            final(self)@ == old(self)@.with_state(phase.state()),
            final(self)@.valid(),
            state == final(self)@.state,
    {
        self.state_updater.update(phase)
    }

    /// The underlying transport ended. Returns whether everything that waits must be woken.
    pub fn mark_transport_closed(&mut self) -> (wake_all: bool)
        requires
            old(self)@.valid(),
        ensures
            final(self)@ == old(self)@.with_transport_closed(),
            final(self)@.valid(),
            wake_all == !old(self)@.transport_closed,
    {
        if self.transport_closed {
            return false;
        }
        self.transport_closed = true;
        self.state_updater.set(State::Closed);
        true
    }

    /// The transport failed for good. Returns whether everything that waits must be woken.
    pub fn mark_driver_failed(&mut self) -> (wake_all: bool)
        requires
            old(self)@.valid(),
        ensures
            final(self)@ == old(self)@.with_driver_failed(),
            final(self)@.valid(),
            wake_all == !old(self)@.driver_failed,
    {
        if self.driver_failed {
            return false;
        }
        self.driver_failed = true;
        self.state_updater.set(State::Closed);
        true
    }

    /// The owner lets go of the connection.
    pub fn close_owner(&mut self)
        requires
            old(self)@.valid(),
        ensures
            final(self)@ == (ConnectionModel {
                alive: false,
                ..old(self)@.with_state(State::Closed)
            }),
            final(self)@.valid(),
    {
        self.alive = false;
        self.state_updater.set(State::Closed);
    }

    /// One step of the send loop: the transport was asked for a packet.
    pub fn on_send_poll(
        &mut self,
        phase: TransportPhase,
        poll: SendPoll,
        now: TimeSpan,
        timeout: Option<TimeSpan>,
    ) -> (action: SendAction)
        requires
            old(self)@.valid(),
            now.nanos + SEND_DONE_BACKSTOP_NANOS <= u128::MAX,
        ensures
            final(self)@.valid(),
            final(self)@ == if poll == SendPoll::Failed {
                old(self)@.with_state(phase.state()).with_driver_failed()
            } else {
                old(self)@.with_state(phase.state())
            },
            match poll {
                SendPoll::Packet { length } => action == (SendAction::Transmit { length }),
                SendPoll::Done => action is Park && action->deadline.nanos == park_deadline(
                    now.nanos as int,
                    timeout,
                ),
                SendPoll::Failed => action == SendAction::Stop,
            },
    {
        self.state_updater.update(phase);
        match poll {
            SendPoll::Packet { length } => SendAction::Transmit { length },
            SendPoll::Done => {
                let backstop: u128 = now.nanos + SEND_DONE_BACKSTOP_NANOS;
                let deadline: u128 = match timeout {
                    Some(timeout) => if timeout.nanos < backstop {
                        timeout.nanos
                    } else {
                        backstop
                    },
                    None => backstop,
                };
                SendAction::Park { deadline: TimeSpan { nanos: deadline } }
            },
            SendPoll::Failed => {
                self.mark_driver_failed();
                SendAction::Stop
            },
        }
    }

    /// A packet is on its way to the underlying sink.
    pub fn transmit_started(&mut self)
        requires
            old(self)@.valid(),
        ensures
            final(self)@ == (ConnectionModel { send_pending: true, ..old(self)@ }),
            final(self)@.valid(),
    {
        self.underlying_send_pending = true;
    }

    /// The underlying sink is done with a packet. Returns whether the send loop goes on.
    pub fn transmit_finished(&mut self, result: TransmitResult, elapsed_millis: u64) -> (go_on:
        bool)
        requires
            old(self)@.valid(),
        ensures
            final(self)@.valid(),
            go_on == (result == TransmitResult::Sent),
            final(self)@ == match result {
                TransmitResult::Sent => ConnectionModel {
                    send_pending: false,
                    last_send_progress_millis: elapsed_millis as int,
                    ..old(self)@
                },
                TransmitResult::Failed => ConnectionModel {
                    send_pending: false,
                    ..old(self)@.with_transport_closed()
                },
                TransmitResult::Closed => ConnectionModel { send_pending: false, ..old(self)@ },
            },
    {
        self.underlying_send_pending = false;
        match result {
            TransmitResult::Sent => {
                self.last_underlying_send_progress_millis = elapsed_millis;
                true
            },
            TransmitResult::Failed => {
                self.mark_transport_closed();
                false
            },
            TransmitResult::Closed => false,
        }
    }

    /// The rest of the send loop is over. Returns whether the send loop goes on.
    pub fn on_park_ended(&mut self, end: ParkEnd) -> (go_on: bool)
        requires
            old(self)@.valid(),
        ensures
            final(self)@.valid(),
            go_on == (end != ParkEnd::Closed),
            final(self)@ == match end {
                ParkEnd::Deadline(phase) => old(self)@.with_state(phase.state()),
                _ => old(self)@,
            },
    {
        match end {
            ParkEnd::Notified => true,
            ParkEnd::Deadline(phase) => {
                self.state_updater.update(phase);
                true
            },
            ParkEnd::Closed => false,
        }
    }

    /// A packet came from the underlying stream.
    pub fn on_underlying_packet(&mut self, elapsed_millis: u64)
        requires
            old(self)@.valid(),
        ensures
            final(self)@ == (ConnectionModel {
                last_recv_progress_millis: elapsed_millis as int,
                ..old(self)@
            }),
            final(self)@.valid(),
    {
        self.last_underlying_recv_progress_millis = elapsed_millis;
    }

    /// The transport took a packet in. Returns whether its readable and writable streams are to
    /// be looked at.
    pub fn on_received(&mut self, phase: TransportPhase, result: Result<usize, TransportError>)
        -> (dispatch: bool)
        requires
            old(self)@.valid(),
        ensures
            final(self)@ == old(self)@.with_state(phase.state()),
            final(self)@.valid(),
            dispatch == (result is Ok),
    {
        self.state_updater.update(phase);
        match result {
            Ok(_) => true,
            Err(_) => false,
        }
    }

    /// Keeps a received datagram for the application. It is dropped where the queue is full.
    pub fn on_datagram(&mut self, datagram: Vec<u8>) -> (kept: bool)
        requires
            old(self)@.valid(),
        ensures
            final(self)@.valid(),
            kept == (old(self)@.datagrams.len() < QUIC_DATAGRAM_QUEUE_CAPACITY),
            final(self)@ == if kept {
                ConnectionModel { datagrams: old(self)@.datagrams.push(datagram@), ..old(self)@ }
            } else {
                old(self)@
            },
    {
        if self.datagrams.len() >= QUIC_DATAGRAM_QUEUE_CAPACITY {
            return false;
        }
        let ghost held = datagram@;
        self.datagrams.push_back(datagram);
        proof {
            assert(self@.datagrams =~= old(self)@.datagrams.push(held));
        }
        true
    }

    /// One step of the reader of application datagrams.
    pub fn datagram_recv_step(&mut self) -> (step: DatagramRecv)
        requires
            old(self)@.valid(),
        ensures
            final(self)@.valid(),
            if !old(self)@.alive || old(self)@.transport_closed || old(self)@.driver_failed {
                step is Ended && final(self)@ == old(self)@
            } else {
                match old(self)@.state {
                    State::Initial => step is AwaitEstablished && final(self)@ == old(self)@,
                    State::Established => if old(self)@.datagrams.len() == 0 {
                        step is AwaitDatagram && final(self)@ == old(self)@
                    } else {
                        step is Datagram && step->Datagram_0@ == old(self)@.datagrams[0]
                            && final(self)@ == (ConnectionModel {
                            datagrams: old(self)@.datagrams.skip(1),
                            ..old(self)@
                        })
                    },
                    State::Draining | State::Closed => step is Ended && final(self)@ == old(self)@,
                }
            },
    {
        if !self.alive || self.transport_closed || self.driver_failed {
            return DatagramRecv::Ended;
        }
        match self.state_updater.state() {
            State::Initial => DatagramRecv::AwaitEstablished,
            State::Established => match self.datagrams.pop_front() {
                Some(datagram) => {
                    proof {
                        assert(self@.datagrams =~= old(self)@.datagrams.skip(1));
                    }
                    DatagramRecv::Datagram(datagram)
                },
                None => DatagramRecv::AwaitDatagram,
            },
            State::Draining | State::Closed => DatagramRecv::Ended,
        }
    }

    /// The streams with a mark, each once.
    fn stream_ids_with(&self, mark: StreamMark) -> (ids: Vec<u64>)
        ensures
            ids@.to_set() == self@.streams_with(mark),
            ids@.no_duplicates(),
    {
        let mut ids: Vec<u64> = Vec::new();
        let keys = self.streams.keys();
        let ghost all = vstd::std_specs::iter::IteratorSpec::remaining(&keys);
        for key in iter: keys
            invariant
                iter.seq() == all,
                iter.seq().no_duplicates(),
                iter.seq().unref().to_set() == self.streams@.dom(),
                ids@.no_duplicates(),
                forall|i: int|
                    0 <= i < ids@.len() ==> self.streams@.contains_key(#[trigger] ids@[i])
                        && self.streams@[ids@[i]].has(mark) && exists|k: int|
                        0 <= k < iter.index() && *#[trigger] iter.seq()[k] == ids@[i],
                forall|k: int|
                    0 <= k < iter.index() && self.streams@[*#[trigger] iter.seq()[k]].has(mark)
                        ==> ids@.contains(*iter.seq()[k]),
        {
            let id: u64 = *key;
            proof {
                let index = iter.index() as int;
                assert(iter.seq().unref()[index] == id);
                assert(iter.seq().unref().to_set().contains(id));
                assert forall|i: int| 0 <= i < ids@.len() implies ids@[i] != id by {
                    let k = choose|k: int|
                        0 <= k < iter.index() && *#[trigger] iter.seq()[k] == ids@[i];
                    assert(iter.seq()[k] != iter.seq()[index]);
                }
            }
            let ghost before = ids@;
            if let Some(signals) = self.streams.get(&id) {
                let marked = match mark {
                    StreamMark::Created => signals.created,
                    StreamMark::ExternalDropped => signals.external_dropped,
                };
                if marked {
                    ids.push(id);
                    proof {
                        assert(ids@.last() == id);
                        assert(ids@.contains(id));
                    }
                }
            }
            proof {
                assert forall|x: u64| before.contains(x) implies ids@.contains(x) by {
                    let i = choose|i: int| 0 <= i < before.len() && before[i] == x;
                    assert(ids@[i] == x);
                }
            }
        }
        proof {
            assert forall|id: u64| #[trigger]
                self@.streams_with(mark).contains(id) implies ids@.contains(id) by {
                assert(all.unref().to_set().contains(id));
                let k = choose|k: int| 0 <= k < all.unref().len() && all.unref()[k] == id;
                assert(*all[k] == id);
            }
            assert(ids@.to_set() =~= self@.streams_with(mark));
        }
        ids
    }

    /// The streams that the transport knows, each once, in no particular order.
    pub fn created_stream_ids(&self) -> (ids: Vec<u64>)
        ensures
            ids@.to_set() == self@.streams_with(StreamMark::Created),
            ids@.no_duplicates(),
    {
        self.stream_ids_with(StreamMark::Created)
    }

    /// The number of streams that the transport does not know yet.
    pub fn uncreated_stream_count(&self) -> (count: usize)
        ensures
            count == self@.streams.len() - self@.streams_with(StreamMark::Created).len(),
    {
        let created = self.stream_ids_with(StreamMark::Created);
        proof {
            created@.unique_seq_to_set();
            vstd::set_lib::lemma_len_subset(created@.to_set(), self.streams@.dom());
        }
        self.streams.len() - created.len()
    }

    /// The number of streams that the application has let go of.
    pub fn dropped_stream_count(&self) -> (count: usize)
        ensures
            count == self@.streams_with(StreamMark::ExternalDropped).len(),
    {
        let dropped = self.stream_ids_with(StreamMark::ExternalDropped);
        proof {
            dropped@.unique_seq_to_set();
        }
        dropped.len()
    }

    /// Those of `ids` that still have a task to wake.
    pub fn known_streams(&self, ids: &[u64]) -> (known: Vec<u64>)
        ensures
            known@ == self@.known(ids@),
    {
        let mut known: Vec<u64> = Vec::new();
        let mut index: usize = 0;
        proof {
            reveal(Seq::filter);
            assert(ids@.take(0) =~= Seq::empty());
        }
        while index < ids.len()
            invariant
                index <= ids.len(),
                known@ == self@.known(ids@.take(index as int)),
            decreases ids.len() - index,
        {
            let id: u64 = ids[index];
            proof {
                reveal(Seq::filter);
                assert(ids@.take(index + 1).drop_last() =~= ids@.take(index as int));
                assert(ids@.take(index + 1).last() == id);
            }
            if self.streams.contains_key(&id) {
                known.push(id);
            }
            index += 1;
        }
        proof {
            assert(ids@.take(ids@.len() as int) =~= ids@);
        }
        known
    }

    /// What a readable stream asks for. A stream that the peer opened is taken up.
    pub fn on_readable(&mut self, id: u64) -> (action: ReadableAction)
        requires
            old(self)@.valid(),
        ensures
            final(self)@.valid(),
            if old(self)@.streams.contains_key(id) {
                action == ReadableAction::WakeReceiver && final(self)@ == old(self)@
            } else if locally_initiated(old(self)@.side, id) {
                action == ReadableAction::DiscardTornDown && final(self)@ == old(self)@
            } else {
                action == ReadableAction::Accept && final(self)@ == old(self)@.with_stream(
                    id,
                    StreamSignals::fresh(true),
                )
            },
    {
        if self.streams.contains_key(&id) {
            return ReadableAction::WakeReceiver;
        }
        if id % 2 == self.side.stream_id_bits() {
            return ReadableAction::DiscardTornDown;
        }
        self.streams.insert(id, StreamSignals::new(true));
        ReadableAction::Accept
    }

    /// Whether a stream id is left to open a stream with.
    pub fn can_open_stream(&self) -> (result: bool)
        ensures
            result == (self@.next_stream_index < MAX_STREAM_INDEX),
    {
        self.next_stream_id_index < MAX_STREAM_INDEX
    }

    /// Opens a stream and returns its id, which no earlier stream had.
    pub fn open_stream(&mut self) -> (id: u64)
        requires
            old(self)@.valid(),
            old(self)@.next_stream_index < MAX_STREAM_INDEX,
        ensures
            final(self)@.valid(),
            id == old(self)@.side.stream_id(old(self)@.next_stream_index),
            !old(self)@.streams.contains_key(id),
            final(self)@ == old(self)@.with_opened_stream(id),
    {
        let index: u64 = self.next_stream_id_index;
        let id: u64 = index * 4 + self.side.stream_id_bits();
        proof {
            lemma_opened_stream(self@, id);
        }
        self.next_stream_id_index = index + 1;
        self.streams.insert(id, StreamSignals::new(false));
        assert(self@ =~= old(self)@.with_opened_stream(id));
        id
    }

    /// The sending task of a stream reached the transport, or ended: the receiving task may act.
    pub fn stream_created(&mut self, id: u64)
        requires
            old(self)@.valid(),
        ensures
            final(self)@.valid(),
            final(self)@ == if old(self)@.streams.contains_key(id) {
                old(self)@.with_stream(
                    id,
                    StreamSignals { created: true, ..old(self)@.streams[id] },
                )
            } else {
                old(self)@
            },
    {
        if let Some(signals) = self.stream(id) {
            self.streams.insert(id, StreamSignals { created: true, ..signals });
        }
    }

    /// The application let go of a stream.
    pub fn stream_dropped(&mut self, id: u64)
        requires
            old(self)@.valid(),
        ensures
            final(self)@.valid(),
            final(self)@ == if old(self)@.streams.contains_key(id) {
                old(self)@.with_stream(
                    id,
                    StreamSignals { external_dropped: true, ..old(self)@.streams[id] },
                )
            } else {
                old(self)@
            },
    {
        if let Some(signals) = self.stream(id) {
            self.streams.insert(id, StreamSignals { external_dropped: true, ..signals });
        }
    }

    /// One of the two tasks of a stream ended. The stream is forgotten with the second.
    pub fn stream_task_finished(&mut self, id: u64)
        requires
            old(self)@.valid(),
        ensures
            final(self)@.valid(),
            final(self)@ == old(self)@.with_task_finished(id),
    {
        if let Some(signals) = self.stream(id) {
            if signals.active_tasks <= 1 {
                self.streams.remove(&id);
            } else {
                self.streams.insert(
                    id,
                    StreamSignals { active_tasks: signals.active_tasks - 1, ..signals },
                );
            }
        }
    }

    /// Whether application datagrams can be exchanged, as far as this node knows.
    pub fn is_available(&self) -> (result: bool)
        ensures
            result == self@.available(),
    {
        self.alive && matches!(self.state_updater.state(), State::Established)
            && !self.transport_closed && !self.driver_failed
    }

    /// Whether the transport may be handed a datagram.
    pub fn check_datagram_send(&self, phase: TransportPhase) -> (result: Result<
        (),
        QuicDatagramSendError,
    >)
        ensures
            match result {
                Ok(_) => self@.available() && phase.open(),
                Err(error) => error == QuicDatagramSendError::Unavailable && !(self@.available()
                    && phase.open()),
            },
    {
        if self.is_available() && phase.is_open() {
            Ok(())
        } else {
            Err(QuicDatagramSendError::Unavailable)
        }
    }

    /// The length of the largest datagram that can be sent, `maximum` being the transport's own
    /// limit.
    pub fn max_writable_len(&self, phase: TransportPhase, maximum: Option<usize>) -> (result: Option<
        usize,
    >)
        ensures
            result == if self@.available() && phase.open() {
                maximum
            } else {
                None
            },
    {
        if self.is_available() && phase.is_open() {
            maximum
        } else {
            None
        }
    }

    /// Whether the transport may be asked for a packet that the peer has to acknowledge.
    pub fn check_send_ack_eliciting(&self) -> (result: Result<(), TransportError>)
        ensures
            match result {
                Ok(_) => self@.state == State::Established && !self@.transport_closed
                    && !self@.driver_failed,
                Err(error) => error == TransportError::InvalidState && !(self@.state
                    == State::Established && !self@.transport_closed && !self@.driver_failed),
            },
    {
        if matches!(self.state_updater.state(), State::Established) && !self.transport_closed
            && !self.driver_failed {
            Ok(())
        } else {
            Err(TransportError::InvalidState)
        }
    }

    /// The loss detection delay now in force.
    pub fn set_loss_delay_floor(&mut self, micros: u64)
        requires
            old(self)@.valid(),
        ensures
            final(self)@ == (ConnectionModel {
                loss_delay_floor_micros: micros as int,
                ..old(self)@
            }),
            final(self)@.valid(),
    {
        self.underlay_loss_delay_floor_micros = micros;
    }

    pub fn send_pending(&self) -> (result: bool)
        ensures
            result == self@.send_pending,
    {
        self.underlying_send_pending
    }

    pub fn last_send_progress_millis(&self) -> (millis: u64)
        ensures
            millis == self@.last_send_progress_millis,
    {
        self.last_underlying_send_progress_millis
    }

    pub fn last_recv_progress_millis(&self) -> (millis: u64)
        ensures
            millis == self@.last_recv_progress_millis,
    {
        self.last_underlying_recv_progress_millis
    }

    pub fn loss_delay_floor_micros(&self) -> (micros: u64)
        ensures
            micros == self@.loss_delay_floor_micros,
    {
        self.underlay_loss_delay_floor_micros
    }

    /// `ok`, unless the connection has failed: first by an error of its own end, then by one of
    /// the peer, then by its driver, then by the transport under it.
    pub fn build_connection_result<TOk>(
        &self,
        ok: TOk,
        local_error: Option<ConnectionError>,
        peer_error: Option<ConnectionError>,
    ) -> (result: Result<TOk, QuicConnectionError>)
        ensures
            result == match (local_error, peer_error) {
                (Some(error), _) => Err(QuicConnectionError::QuicheConnectionLocal(error)),
                (None, Some(error)) => Err(QuicConnectionError::QuicheConnectionPeer(error)),
                (None, None) => if self@.driver_failed {
                    Err(QuicConnectionError::DriverFailed)
                } else if self@.transport_closed {
                    Err(QuicConnectionError::UnderlyingTransportClosed)
                } else {
                    Ok(ok)
                },
            },
    {
        if let Some(error) = local_error {
            return Err(QuicConnectionError::QuicheConnectionLocal(error));
        }
        if let Some(error) = peer_error {
            return Err(QuicConnectionError::QuicheConnectionPeer(error));
        }
        if self.driver_failed {
            Err(QuicConnectionError::DriverFailed)
        } else if self.transport_closed {
            Err(QuicConnectionError::UnderlyingTransportClosed)
        } else {
            Ok(ok)
        }
    }
}

/// What became of a datagram that the transport was handed.
pub fn classify_datagram_send(
    result: Result<(), TransportError>,
    length: usize,
    maximum: Option<usize>,
) -> (outcome: Result<(), QuicDatagramSendError>)
    ensures
        outcome == match result {
            Ok(_) => Ok(()),
            Err(TransportError::Done) => Err(QuicDatagramSendError::QueueFull),
            Err(TransportError::InvalidState) => Err(QuicDatagramSendError::Unavailable),
            Err(TransportError::BufferTooShort) => Err(
                QuicDatagramSendError::TooLarge { length, maximum },
            ),
            Err(error) => Err(QuicDatagramSendError::Quiche(error)),
        },
{
    match result {
        Ok(_) => Ok(()),
        Err(TransportError::Done) => Err(QuicDatagramSendError::QueueFull),
        Err(TransportError::InvalidState) => Err(QuicDatagramSendError::Unavailable),
        Err(TransportError::BufferTooShort) => Err(
            QuicDatagramSendError::TooLarge { length, maximum },
        ),
        Err(error) => Err(QuicDatagramSendError::Quiche(error)),
    }
}

/// Whether the send loop is woken after a torn-down stream was discarded.
pub fn discard_wakes_sender(result: Result<(), TransportError>) -> (wake: bool)
    ensures
        wake == (result is Ok),
{
    match result {
        Ok(_) => true,
        Err(_) => false,
    }
}

/// A stream is forgotten only when both of its tasks have ended.
pub proof fn law_stream_lives_until_both_tasks_end(model: ConnectionModel, id: u64, created: bool)
    requires
        model.valid(),
        !model.streams.contains_key(id),
    ensures
        ({
            let opened = model.with_stream(id, StreamSignals::fresh(created));
            &&& opened.with_task_finished(id).streams.contains_key(id)
            &&& opened.with_task_finished(id).with_task_finished(id) == model
        }),
{
    let opened = model.with_stream(id, StreamSignals::fresh(created));
    assert(opened.with_task_finished(id).with_task_finished(id).streams =~= model.streams);
}

/// A connection whose driver or transport has failed stays closed, whatever the transport says.
pub proof fn law_failed_connection_stays_closed(model: ConnectionModel, phase: TransportPhase)
    requires
        model.valid(),
        model.transport_closed || model.driver_failed,
    ensures
        model.with_state(phase.state()) == model,
        !model.available(),
{
    assert(model.with_state(phase.state()) =~= model);
}

/// Streams that this end opens have ids of its own side, each four above the one before it, and
/// none is in use.
pub proof fn law_opened_streams_are_numbered(
    first: &mut QuicConnection,
    second: &mut QuicConnection,
    id: u64,
    next: u64,
)
    requires
        old(first)@.valid(),
        old(first)@.next_stream_index + 1 < MAX_STREAM_INDEX,
        call_ensures(QuicConnection::open_stream, (first,), id),
        old(second)@ == final(first)@,
        call_ensures(QuicConnection::open_stream, (second,), next),
    ensures
        next == id + 4,
        id % 4 == (if old(first)@.side == ConnectionSide::Client {
            0int
        } else {
            1int
        }),
        old(first)@.next_stream_index == 0 ==> id < 4,
        !old(first)@.streams.contains_key(id),
        final(second)@.streams.contains_key(id) && !final(second)@.streams[id].created,
        final(second)@.streams[id].active_tasks == 2,
{
}

/// A readable stream that is known wakes its receiver. One that is not is accepted where the peer
/// opened it, and then known; one that this end opened is gone and its data discarded.
pub proof fn law_readable_streams_of_the_peer_are_accepted(
    connection: &mut QuicConnection,
    id: u64,
    action: ReadableAction,
    again: &mut QuicConnection,
    action_then: ReadableAction,
)
    requires
        old(connection)@.valid(),
        call_ensures(QuicConnection::on_readable, (connection, id), action),
        old(again)@ == final(connection)@,
        call_ensures(QuicConnection::on_readable, (again, id), action_then),
    ensures
        ({
            let own = id % 2 == (if old(connection)@.side == ConnectionSide::Client {
                0int
            } else {
                1int
            });
            let known = old(connection)@.streams.contains_key(id);
            &&& action is WakeReceiver <==> known
            &&& action is Accept <==> !known && !own
            &&& action is DiscardTornDown <==> !known && own
            &&& action is Accept ==> action_then is WakeReceiver && final(
                connection)@.streams[id].created && final(connection)@.streams[id].active_tasks == 2
            &&& action !is Accept ==> final(connection)@ == old(connection)@
        }),
{
}

/// A packet is transmitted at its length; with nothing to send the driver waits until the transport
/// asks to be called, but a second at most; a failure stops it and closes the connection.
pub proof fn law_drivers_wait_a_second_at_most(
    connection: &mut QuicConnection,
    phase: TransportPhase,
    poll: SendPoll,
    now: TimeSpan,
    timeout: Option<TimeSpan>,
    action: SendAction,
)
    requires
        old(connection)@.valid(),
        now.nanos + SEND_DONE_BACKSTOP_NANOS <= u128::MAX,
        call_ensures(
            QuicConnection::on_send_poll,
            (connection, phase, poll, now, timeout),
            action,
        ),
    ensures
        poll matches SendPoll::Packet { length } ==> action == (SendAction::Transmit { length }),
        action is Transmit <==> poll is Packet,
        action is Park <==> poll is Done,
        action matches SendAction::Park { deadline } ==> deadline.nanos <= now.nanos
            + 1_000_000_000 && (timeout matches Some(timeout) ==> deadline.nanos
            <= timeout.nanos),
        poll is Done && timeout is None ==> action->deadline.nanos == now.nanos + 1_000_000_000,
        poll is Done && timeout is Some && timeout->Some_0.nanos <= now.nanos + 1_000_000_000
            ==> action->deadline == timeout->Some_0,
        poll is Failed ==> action is Stop && final(connection)@.driver_failed && final(
            connection)@.state == State::Closed,
        poll !is Failed ==> final(connection)@.driver_failed == old(connection)@.driver_failed,
{
}

/// A transmission that succeeded is progress; one that failed closes the transport; either way it
/// is over.
pub proof fn law_failed_transmissions_close(
    connection: &mut QuicConnection,
    result: TransmitResult,
    elapsed_millis: u64,
    go_on: bool,
)
    requires
        old(connection)@.valid(),
        call_ensures(
            QuicConnection::transmit_finished,
            (connection, result, elapsed_millis),
            go_on,
        ),
    ensures
        go_on <==> result is Sent,
        !final(connection)@.send_pending,
        result is Sent ==> final(connection)@.last_send_progress_millis == elapsed_millis,
        result !is Sent ==> final(connection)@.last_send_progress_millis == old(
            connection)@.last_send_progress_millis,
        result is Failed ==> final(connection)@.transport_closed && final(connection)@.state
            == State::Closed,
        result !is Failed ==> final(connection)@.transport_closed == old(
            connection)@.transport_closed,
{
}

/// Datagrams are kept in their order, 64 at most, and handed out while the connection is
/// established; before that the receiver waits, after it there are no more.
pub proof fn law_datagrams_are_handed_out_in_order(
    kept: &mut QuicConnection,
    datagram: Vec<u8>,
    room: bool,
    received: &mut QuicConnection,
    step: DatagramRecv,
)
    requires
        old(kept)@.valid(),
        call_ensures(QuicConnection::on_datagram, (kept, datagram), room),
        old(received)@ == final(kept)@,
        call_ensures(QuicConnection::datagram_recv_step, (received,), step),
    ensures
        room <==> old(kept)@.datagrams.len() < 64,
        ({
            let over = !old(kept)@.alive || old(kept)@.transport_closed || old(kept)@.driver_failed
                || old(kept)@.state == State::Draining || old(kept)@.state == State::Closed;
            &&& step is Ended <==> over
            &&& step is AwaitEstablished <==> !over && old(kept)@.state == State::Initial
            &&& !over && old(kept)@.state == State::Established ==> step is Datagram
            &&& step is Datagram && old(kept)@.datagrams.len() == 0 ==> step->Datagram_0@
                == datagram@
            &&& step is Datagram && old(kept)@.datagrams.len() > 0 ==> step->Datagram_0@ == old(
                kept)@.datagrams[0]
        }),
{
}

/// A stream that was created is marked so, one that its user dropped too; a stream that is not
/// known is not made known by either, and the other streams stay as they are.
pub proof fn law_stream_marks_are_kept(
    created: &mut QuicConnection,
    dropped: &mut QuicConnection,
    id: u64,
    other: u64,
)
    requires
        old(created)@.valid(),
        call_ensures(QuicConnection::stream_created, (created, id), ()),
        old(dropped)@ == final(created)@,
        call_ensures(QuicConnection::stream_dropped, (dropped, id), ()),
    ensures
        old(created)@.streams.contains_key(id) ==> final(dropped)@.streams[id].created && final(
            dropped)@.streams[id].external_dropped && final(dropped)@.streams[id].active_tasks
            == old(created)@.streams[id].active_tasks,
        final(dropped)@.streams.contains_key(id) <==> old(created)@.streams.contains_key(id),
        other != id && old(created)@.streams.contains_key(other) ==> final(
            dropped)@.streams.contains_key(other) && final(dropped)@.streams[other] == old(
            created)@.streams[other],
{
}

/// Datagrams can be sent, and have a longest length, exactly while the connection is established,
/// open and not failed.
pub proof fn law_only_open_connections_send_datagrams(
    connection: QuicConnection,
    phase: TransportPhase,
    maximum: Option<usize>,
    checked: Result<(), QuicDatagramSendError>,
    length: Option<usize>,
    kept_alive: Result<(), TransportError>,
)
    requires
        call_ensures(QuicConnection::check_datagram_send, (&connection, phase), checked),
        call_ensures(QuicConnection::max_writable_len, (&connection, phase, maximum), length),
        call_ensures(QuicConnection::check_send_ack_eliciting, (&connection,), kept_alive),
    ensures
        ({
            let usable = connection@.state == State::Established && !connection@.transport_closed
                && !connection@.driver_failed;
            let open = phase.established && !phase.draining && !phase.closed;
            &&& checked is Ok <==> usable && connection@.alive && open
            &&& checked matches Err(error) ==> error is Unavailable
            &&& checked is Ok ==> length == maximum
            &&& checked is Err ==> length is None
            &&& kept_alive is Ok <==> usable
        }),
{
}

/// What ended a connection is reported: an error of this end before one of the peer, these before a
/// failed driver, that before a closed transport; and success only where nothing did.
pub proof fn law_first_cause_is_reported<TOk>(
    connection: QuicConnection,
    ok: TOk,
    local_error: Option<ConnectionError>,
    peer_error: Option<ConnectionError>,
    result: Result<TOk, QuicConnectionError>,
)
    requires
        call_ensures(
            QuicConnection::build_connection_result::<TOk>,
            (&connection, ok, local_error, peer_error),
            result,
        ),
    ensures
        result is Ok <==> local_error is None && peer_error is None && !connection@.driver_failed
            && !connection@.transport_closed,
        result is Ok ==> result == Ok::<TOk, QuicConnectionError>(ok),
        local_error matches Some(error) ==> result == Err::<TOk, _>(
            QuicConnectionError::QuicheConnectionLocal(error),
        ),
        local_error is None && peer_error is Some ==> result == Err::<TOk, _>(
            QuicConnectionError::QuicheConnectionPeer(peer_error->Some_0),
        ),
        local_error is None && peer_error is None && connection@.driver_failed ==> result == Err::<
            TOk,
            _,
        >(QuicConnectionError::DriverFailed),
{
}

/// A datagram that the transport refused is reported as what it was refused for.
pub proof fn law_refused_datagrams_are_classified(
    result: Result<(), TransportError>,
    length: usize,
    maximum: Option<usize>,
    outcome: Result<(), QuicDatagramSendError>,
)
    requires
        call_ensures(classify_datagram_send, (result, length, maximum), outcome),
    ensures
        outcome is Ok <==> result is Ok,
        outcome == Err::<(), _>(QuicDatagramSendError::QueueFull) <==> result == Err::<(), _>(
            TransportError::Done,
        ),
        outcome == Err::<(), _>(QuicDatagramSendError::Unavailable) <==> result == Err::<(), _>(
            TransportError::InvalidState,
        ),
        result == Err::<(), _>(TransportError::BufferTooShort) ==> outcome == Err::<(), _>(
            QuicDatagramSendError::TooLarge { length, maximum },
        ),
{
}

/// Closing, failing and giving up a connection all close it for good; the first to do so is told to
/// wake everybody.
pub proof fn law_closed_connections_stay_closed(
    closed: &mut QuicConnection,
    wake: bool,
    again: &mut QuicConnection,
    wake_then: bool,
    updated: &mut QuicConnection,
    phase: TransportPhase,
    state: State,
    available: bool,
)
    requires
        old(closed)@.valid(),
        call_ensures(QuicConnection::mark_transport_closed, (closed,), wake),
        old(again)@ == final(closed)@,
        call_ensures(QuicConnection::mark_transport_closed, (again,), wake_then),
        old(updated)@ == final(again)@,
        call_ensures(QuicConnection::update_state, (updated, phase), state),
        call_ensures(QuicConnection::is_available, (final(updated),), available),
    ensures
        wake <==> !old(closed)@.transport_closed,
        !wake_then,
        state == State::Closed,
        !available,
        final(updated)@.streams == old(closed)@.streams,
{
}

/// The streams that are both asked about and known are kept, in the order asked for.
pub proof fn law_known_streams_are_kept(model: ConnectionModel, ids: Seq<u64>, id: u64)
    ensures
        model.known(ids).contains(id) <==> ids.contains(id) && model.streams.contains_key(id),
{
    let known = |id: u64| model.streams.contains_key(id);
    if ids.contains(id) && known(id) {
        let i = choose|i: int| 0 <= i < ids.len() && ids[i] == id;
        ids.lemma_filter_contains(known, i);
    }
    if model.known(ids).contains(id) {
        ids.lemma_filter_contains_rev(known, id);
        let kept = model.known(ids);
        let i = choose|i: int| 0 <= i < kept.len() && kept[i] == id;
        ids.lemma_filter_pred(known, i);
    }
}

/// The streams that were created are listed once each; those that were not and those that are no
/// longer held from outside are counted.
pub proof fn law_streams_are_counted(
    connection: QuicConnection,
    ids: Vec<u64>,
    all: usize,
    uncreated: usize,
    dropped: usize,
    id: u64,
)
    requires
        call_ensures(QuicConnection::created_stream_ids, (&connection,), ids),
        call_ensures(QuicConnection::stream_count, (&connection,), all),
        call_ensures(QuicConnection::uncreated_stream_count, (&connection,), uncreated),
        call_ensures(QuicConnection::dropped_stream_count, (&connection,), dropped),
    ensures
        ids@.contains(id) <==> connection@.streams.contains_key(id) && connection@.streams[id].created,
        ids@.no_duplicates(),
        ids@.len() + uncreated == all,
        all == connection@.streams.len(),
        dropped == connection@.streams.dom().filter(
            |id: u64| connection@.streams[id].external_dropped,
        ).len(),
{
    ids@.unique_seq_to_set();
    assert(ids@.to_set().contains(id) <==> connection@.streams_with(StreamMark::Created).contains(
        id,
    ));
    assert(connection@.streams_with(StreamMark::ExternalDropped) =~= connection@.streams.dom().filter(
        |id: u64| connection@.streams[id].external_dropped,
    ));
}

/// Only a discard that the transport carried out wakes the sender, and a failed driver closes the
/// connection and is told once.
pub proof fn law_failed_drivers_are_told_once(
    first: &mut QuicConnection,
    told: bool,
    second: &mut QuicConnection,
    told_again: bool,
    result: Result<(), TransportError>,
    wakes: bool,
)
    requires
        old(first)@.valid(),
        call_ensures(QuicConnection::mark_driver_failed, (first,), told),
        old(second)@ == final(first)@,
        call_ensures(QuicConnection::mark_driver_failed, (second,), told_again),
        call_ensures(discard_wakes_sender, (result,), wakes),
    ensures
        told <==> !old(first)@.driver_failed,
        !told_again,
        final(first)@.driver_failed,
        final(first)@.state is Closed,
        final(second)@.driver_failed && final(second)@.state is Closed,
        final(first)@.streams == old(first)@.streams,
        wakes <==> result is Ok,
{
}

/// A new connection is alive and knows no streams; a new stream has its two tasks running.
pub proof fn law_new_connections_know_no_streams(
    side: ConnectionSide,
    connection: QuicConnection,
    created: bool,
    signals: StreamSignals,
)
    requires
        call_ensures(QuicConnection::new, (side,), connection),
        call_ensures(StreamSignals::new, (created,), signals),
    ensures
        connection@.side == side && connection@.state is Initial,
        connection@.alive && !connection@.transport_closed && !connection@.driver_failed,
        connection@.streams.len() == 0 && connection@.next_stream_index == 0,
        connection@.datagrams.len() == 0 && !connection@.send_pending,
        connection@.last_send_progress_millis == 0 && connection@.last_recv_progress_millis == 0,
        connection@.loss_delay_floor_micros == 0,
        signals.created == created && !signals.external_dropped && signals.active_tasks == 2,
{
}

/// A transmission is pending from its start to its end. One that was sent is progress, and only
/// then does the driver go on; one that failed closes the transport.
pub proof fn law_transmissions_are_pending_until_they_end(
    started: &mut QuicConnection,
    finished: &mut QuicConnection,
    result: TransmitResult,
    elapsed_millis: u64,
    go_on: bool,
)
    requires
        old(started)@.valid(),
        call_ensures(QuicConnection::transmit_started, (started,), ()),
        old(finished)@ == final(started)@,
        call_ensures(
            QuicConnection::transmit_finished,
            (finished, result, elapsed_millis),
            go_on,
        ),
    ensures
        final(started)@.send_pending && !final(finished)@.send_pending,
        go_on <==> result is Sent,
        go_on ==> final(finished)@.last_send_progress_millis == elapsed_millis,
        !go_on ==> final(finished)@.last_send_progress_millis == old(
            started,
        )@.last_send_progress_millis,
        result is Failed ==> final(finished)@.transport_closed && final(finished)@.state is Closed,
        !(result is Failed) ==> final(finished)@.transport_closed == old(started)@.transport_closed
            && final(finished)@.state == old(started)@.state,
        final(finished)@.streams == old(started)@.streams,
{
}

} // verus!
