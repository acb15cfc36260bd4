//! The bookkeeping of a tunnelled QUIC connection and the decisions of its loops.

use std::collections::HashMap;

use vstd::prelude::*;

use crate::quic_connection::TransportError;

verus! {

broadcast use vstd::std_specs::hash::group_hash_axioms;

/// The bytes that a stream task moves at a time.
pub const READ_WRITE_BUFFER_SIZE: usize = 8192;

/// The bytes that wait between a stream and the application.
pub const SIMPLEX_MAX_BUFFER_SIZE: usize = 8192;

/// The number of stream indices that fit in a stream id.
pub const MAX_STREAM_INDEX: u64 = 0x4000_0000_0000_0000;

#[derive(Clone, Copy, Debug, PartialEq, Eq, Structural)]
pub enum QuicConnectionSide {
    Client,
    Server,
}

impl QuicConnectionSide {
    /// The low bits of the ids of the streams that this side opens.
    pub open spec fn bits(self) -> int {
        match self {
            QuicConnectionSide::Client => 0,
            QuicConnectionSide::Server => 1,
        }
    }

    /// The id of the stream with an index that this side opens.
    pub open spec fn stream_id(self, index: int) -> int {
        index * 4 + self.bits()
    }

    pub fn stream_id_bits(&self) -> (bits: u64)
        ensures
            bits == self.bits(),
    {
        match self {
            QuicConnectionSide::Client => 0,
            QuicConnectionSide::Server => 1,
        }
    }
}

/// The two sides never open streams with the same id, nor does one side open two of them.
pub proof fn law_tunnel_stream_ids_are_distinct(
    side: QuicConnectionSide,
    index: int,
    other_side: QuicConnectionSide,
    other_index: int,
)
    requires
        side != other_side || index != other_index,
    ensures
        side.stream_id(index) != other_side.stream_id(other_index),
{
}

/// One receiving task at most is busy with a stream: between the moment when a stream became
/// readable and the end of its task, becoming readable again starts nothing.
pub proof fn law_one_task_receives_a_stream(streams: Map<u64, bool>, id: u64)
    ensures
        readable_step(streams.insert(id, true), id) is Skip,
        readable_step(without_task(streams.insert(id, true), id), id) is Receive,
{
}

/// A stream is handed to the application once: what happens to it or to other streams afterwards,
/// as long as the application holds it, does not hand it over again.
pub proof fn law_streams_are_accepted_once(streams: Map<u64, bool>, id: u64, other: u64)
    requires
        streams.contains_key(id),
    ensures
        !(readable_step(streams, id) is AcceptAndReceive),
        streams.insert(other, true).contains_key(id),
        without_task(streams, other).contains_key(id),
        other != id ==> streams.remove(other).contains_key(id),
{
}

/// The mathematical form of a `QuicConnection`.
#[verifier::ext_equal]
pub struct TunnelModel {
    pub id: Seq<u8>,
    pub side: QuicConnectionSide,
    pub established: bool,
    pub next_stream_index: int,
    /// The open streams, and whether a receiving task is busy with each.
    pub streams: Map<u64, bool>,
}

/// What a readable stream asks for.
#[derive(Clone, Copy, Debug, PartialEq, Eq, Structural)]
pub enum ReadableStep {
    /// Start a receiving task.
    Receive,
    /// Hand the stream to the application, then start a receiving task.
    AcceptAndReceive,
    /// A receiving task is still busy with the stream.
    Skip,
}

/// What a readable stream asks for, where `streams` tells of each known stream whether a receiving
/// task is busy with it.
pub open spec fn readable_step(streams: Map<u64, bool>, id: u64) -> ReadableStep {
    if !streams.contains_key(id) {
        ReadableStep::AcceptAndReceive
    } else if streams[id] {
        ReadableStep::Skip
    } else {
        ReadableStep::Receive
    }
}

/// The streams once the receiving task of one of them ended.
pub open spec fn without_task(streams: Map<u64, bool>, id: u64) -> Map<u64, bool> {
    if streams.contains_key(id) {
        streams.insert(id, false)
    } else {
        streams
    }
}

/// What became of a packet that the transport took in.
#[derive(Clone, Copy, Debug, PartialEq, Eq, Structural)]
pub enum ReceiveStep {
    /// Wake the send loop and look at the readable streams.
    Dispatch,
    /// Nothing to do.
    Continue,
    /// The receive loop ends.
    Stop,
}

/// What the sending task of a stream does next.
#[derive(Clone, Copy, Debug, PartialEq, Eq, Structural)]
pub enum SendStep {
    /// Offer the transport the rest of the chunk.
    Send,
    /// Read the next chunk from the application.
    ReadNext,
    /// Wait for room.
    Await,
    /// The task ends.
    Stop,
}

/// What a receiving task does with the transport's answer.
#[derive(Clone, Copy, Debug, PartialEq, Eq, Structural)]
pub enum DeliverStep {
    /// Hand so many bytes to the application, then receive on.
    Deliver { length: usize },
    /// Hand so many bytes to the application, close its end and stop.
    DeliverAndClose { length: usize },
    Stop,
}

/// A tunnelled QUIC connection.
pub struct QuicConnection {
    id: Vec<u8>,
    side: QuicConnectionSide,
    established: bool,
    next_stream_id_index: u64,
    streams: HashMap<u64, bool>,
}

impl View for QuicConnection {
    type V = TunnelModel;

    closed spec fn view(&self) -> TunnelModel {
        TunnelModel {
            id: self.id@,
            side: self.side,
            established: self.established,
            next_stream_index: self.next_stream_id_index as int,
            streams: self.streams@,
        }
    }
}

impl QuicConnection {
    pub fn create(id: Vec<u8>, side: QuicConnectionSide) -> (connection: Self)
        ensures
            connection@ == (TunnelModel {
                id: id@,
                side,
                established: false,
                next_stream_index: 0,
                streams: Map::empty(),
            }),
    {
        QuicConnection {
            id,
            side,
            established: false,
            next_stream_id_index: 0,
            streams: HashMap::new(),
        }
    }

    /// A connection id that no other connection is likely to have.
    pub fn generate_connection_id() -> (id: Vec<u8>)
        ensures
            id@.len() == 20,
    {
        crate::quic_connection::diagnostics::generate_connection_id()
    }

    pub fn is_established(&self) -> (result: bool)
        ensures
            result == self@.established,
    {
        self.established
    }

    pub fn id(&self) -> (id: &Vec<u8>)
        ensures
            id@ == self@.id,
    {
        &self.id
    }

    /// Whether a stream id is left to open a stream with.
    pub fn can_open_stream(&self) -> (result: bool)
        ensures
            result == (self@.next_stream_index < MAX_STREAM_INDEX),
    {
        self.next_stream_id_index < MAX_STREAM_INDEX
    }

    /// Opens a stream and returns its id. The ids of a side grow by four from stream to stream.
    pub fn open_stream(&mut self) -> (id: u64)
        requires
            old(self)@.next_stream_index < MAX_STREAM_INDEX,
        ensures
            id == old(self)@.side.stream_id(old(self)@.next_stream_index),
            final(self)@ == (TunnelModel {
                next_stream_index: old(self)@.next_stream_index + 1,
                streams: old(self)@.streams.insert(id, false),
                ..old(self)@
            }),
    {
        let id: u64 = self.next_stream_id_index * 4 + self.side.stream_id_bits();
        self.next_stream_id_index = self.next_stream_id_index + 1;
        self.streams.insert(id, false);
        id
    }

    /// The transport took a packet in. Returns what follows, and whether those who wait for the
    /// handshake are to be woken.
    pub fn on_receive(&mut self, transport_established: bool, result: Result<usize, TransportError>)
        -> (step: (ReceiveStep, bool))
        ensures
            final(self)@ == (TunnelModel {
                established: old(self)@.established || transport_established,
                ..old(self)@
            }),
            step.0 == match result {
                Ok(_) => ReceiveStep::Dispatch,
                Err(TransportError::Done) => ReceiveStep::Continue,
                Err(_) => ReceiveStep::Stop,
            },
            step.1 == (transport_established && !old(self)@.established),
    {
        let woken = transport_established && !self.established;
        if woken {
            self.established = true;
        }
        let step = match result {
            Ok(_) => ReceiveStep::Dispatch,
            Err(TransportError::Done) => ReceiveStep::Continue,
            Err(_) => ReceiveStep::Stop,
        };
        (step, woken)
    }

    /// What a readable stream asks for. An unknown stream is taken up.
    pub fn on_readable(&mut self, id: u64) -> (step: ReadableStep)
        ensures
            step == readable_step(old(self)@.streams, id),
            final(self)@ == (TunnelModel {
                streams: old(self)@.streams.insert(id, true),
                ..old(self)@
            }),
    {
        let step = match self.streams.get(&id) {
            None => ReadableStep::AcceptAndReceive,
            Some(busy) => if *busy {
                ReadableStep::Skip
            } else {
                ReadableStep::Receive
            },
        };
        self.streams.insert(id, true);
        step
    }

    /// The receiving task of a stream ended.
    pub fn receive_task_finished(&mut self, id: u64)
        ensures
            final(self)@ == (TunnelModel {
                streams: without_task(old(self)@.streams, id),
                ..old(self)@
            }),
    {
        if self.streams.contains_key(&id) {
            self.streams.insert(id, false);
        }
    }

    /// The application let go of a stream.
    pub fn stream_dropped(&mut self, id: u64)
        ensures
            final(self)@ == (TunnelModel {
                streams: old(self)@.streams.remove(id),
                ..old(self)@
            }),
    {
        self.streams.remove(&id);
    }
}

/// What follows when the transport was offered `chunk[offset..total_length]`, an empty chunk
/// being the end of the stream. Returns the new offset too.
pub fn on_stream_send(total_length: usize, offset: usize, result: Result<usize, TransportError>) -> (r: (
    SendStep,
    usize,
))
    requires
        offset <= total_length,
        total_length > 0 ==> offset < total_length,
        result matches Ok(length) ==> length <= total_length - offset && (total_length > 0
            ==> length > 0),
    ensures
        match result {
            Ok(length) => r.1 == offset + length && r.0 == if total_length == 0 {
                SendStep::Stop
            } else if offset + length < total_length {
                SendStep::Send
            } else {
                SendStep::ReadNext
            },
            Err(TransportError::Done) => r == (SendStep::Await, offset),
            Err(_) => r == (SendStep::Stop, offset),
        },
{
    match result {
        Ok(length) => {
            let next: usize = offset + length;
            if total_length == 0 {
                (SendStep::Stop, next)
            } else if next < total_length {
                (SendStep::Send, next)
            } else {
                (SendStep::ReadNext, next)
            }
        },
        Err(TransportError::Done) => (SendStep::Await, offset),
        Err(_) => (SendStep::Stop, offset),
    }
}

/// What a receiving task does with the transport's answer.
pub fn on_stream_recv(result: Result<(usize, bool), TransportError>) -> (step: DeliverStep)
    ensures
        step == match result {
            Ok((length, last)) => if last {
                DeliverStep::DeliverAndClose { length }
            } else {
                DeliverStep::Deliver { length }
            },
            Err(_) => DeliverStep::Stop,
        },
{
    match result {
        Ok((length, last)) => if last {
            DeliverStep::DeliverAndClose { length }
        } else {
            DeliverStep::Deliver { length }
        },
        Err(_) => DeliverStep::Stop,
    }
}

/// Streams that one end opens have ids of its own side, each four above the one before it.
pub proof fn law_opened_streams_are_numbered(
    first: &mut QuicConnection,
    second: &mut QuicConnection,
    id: u64,
    next: u64,
)
    requires
        old(first)@.next_stream_index + 1 < MAX_STREAM_INDEX,
        call_ensures(QuicConnection::open_stream, (first,), id),
        old(second)@ == final(first)@,
        call_ensures(QuicConnection::open_stream, (second,), next),
    ensures
        next == id + 4,
        id % 4 == (if old(first)@.side == QuicConnectionSide::Client {
            0int
        } else {
            1int
        }),
        old(first)@.next_stream_index == 0 ==> id < 4,
        final(second)@.streams.contains_key(id) && final(second)@.streams.contains_key(next),
{
}

/// The connection is established once the transport says so, which is announced exactly once, and
/// stays so.
pub proof fn law_establishment_is_announced_once(
    first: &mut QuicConnection,
    second: &mut QuicConnection,
    result: Result<usize, TransportError>,
    other: Result<usize, TransportError>,
    established: bool,
    step: (ReceiveStep, bool),
    step_then: (ReceiveStep, bool),
)
    requires
        !old(first)@.established,
        call_ensures(QuicConnection::on_receive, (first, true, result), step),
        old(second)@ == final(first)@,
        call_ensures(QuicConnection::on_receive, (second, established, other), step_then),
    ensures
        step.1,
        !step_then.1,
        final(second)@.established,
        step.0 is Dispatch <==> result is Ok,
        step.0 is Continue <==> result == Err::<usize, _>(TransportError::Done),
{
}

/// A chunk is sent until all of it is accepted: what was accepted counts, what the transport had no
/// room for waits, an empty chunk ends the stream.
pub proof fn law_chunks_are_sent_to_their_end(
    total_length: usize,
    offset: usize,
    result: Result<usize, TransportError>,
    sent: (SendStep, usize),
)
    requires
        offset <= total_length,
        total_length > 0 ==> offset < total_length,
        result matches Ok(length) ==> length <= total_length - offset && (total_length > 0
            ==> length > 0),
        call_ensures(on_stream_send, (total_length, offset, result), sent),
    ensures
        result matches Ok(length) ==> sent.1 == offset + length,
        result is Err ==> sent.1 == offset,
        total_length > 0 && result is Ok ==> (sent.0 is ReadNext <==> sent.1 == total_length) && (
        sent.0 is Send <==> sent.1 < total_length),
        sent.0 is Await <==> result == Err::<usize, _>(TransportError::Done),
        total_length == 0 && result is Ok ==> sent.0 is Stop,
        result is Err && result != Err::<usize, _>(TransportError::Done) ==> sent.0 is Stop,
{
}

/// What a stream received is delivered at its length, and its end closes it; an error stops.
pub proof fn law_received_data_is_delivered(
    result: Result<(usize, bool), TransportError>,
    step: DeliverStep,
)
    requires
        call_ensures(on_stream_recv, (result,), step),
    ensures
        result matches Ok((length, true)) ==> step == (DeliverStep::DeliverAndClose { length }),
        result matches Ok((length, false)) ==> step == (DeliverStep::Deliver { length }),
        step is Stop <==> result is Err,
{
}

/// A stream is read and written by 8 KiB and holds as much.
pub proof fn law_sizes_of_the_streams()
    ensures
        READ_WRITE_BUFFER_SIZE == 8 * 1_024,
        SIMPLEX_MAX_BUFFER_SIZE == 8 * 1_024,
{
}

} // verus!
