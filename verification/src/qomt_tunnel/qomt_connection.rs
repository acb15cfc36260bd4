//! The streams of a tunnelled connection.

use std::collections::HashMap;

use vstd::prelude::*;

use crate::quic_connection::TransportError;
use crate::quic_tunnel::quic_connection::{
    readable_step, without_task, ReadableStep, ReceiveStep,
};

verus! {

broadcast use vstd::std_specs::hash::group_hash_axioms;

/// The largest packet handed to the TCP connections. They could carry larger ones; small ones
/// keep latency low.
pub const MAX_DATAGRAM_SIZE: usize = 1500;

/// The bytes that a stream task moves at a time.
pub const READ_WRITE_BUFFER_SIZE: usize = 16_384;

/// The bytes that wait between a stream and the application.
pub const STREAM_MAX_BUFFER_SIZE: usize = 262_144;

#[derive(Clone, Copy, Debug, PartialEq, Eq, Structural)]
pub enum QomtConnectionError {
    /// An I/O error, by its operating system code where it has one.
    Io(Option<i32>),
}

/// What the loop that asks the transport for packets does next.
#[derive(Clone, Copy, Debug, PartialEq, Eq, Structural)]
pub enum PumpStep {
    /// Hand a packet of this length to the TCP connections and wake the blocked streams.
    Transmit { length: usize },
    /// Wait until a stream has sent.
    AwaitStream,
    Stop,
}

/// The streams seen so far, and whether a receiving task is busy with each.
pub struct QomtConnection {
    streams: HashMap<u64, bool>,
}

impl View for QomtConnection {
    type V = Map<u64, bool>;

    closed spec fn view(&self) -> Map<u64, bool> {
        self.streams@
    }
}

impl QomtConnection {
    pub fn new() -> (connection: Self)
        ensures
            connection@ == Map::<u64, bool>::empty(),
    {
        QomtConnection { streams: HashMap::new() }
    }

    /// What a readable stream asks for. A stream seen for the first time is handed to the
    /// application.
    pub fn on_readable(&mut self, id: u64) -> (step: ReadableStep)
        ensures
            step == readable_step(old(self)@, id),
            final(self)@ == old(self)@.insert(id, true),
    {
        let step = match self.streams.get(&id) {
            None => ReadableStep::AcceptAndReceive,
            Some(busy) => if *busy {
                ReadableStep::Skip
            } else {
                ReadableStep::Receive
            },
        };
        self.streams.insert(id, true);
        step
    }

    /// The receiving task of a stream ended.
    pub fn receive_task_finished(&mut self, id: u64)
        ensures
            final(self)@ == without_task(old(self)@, id),
    {
        if self.streams.contains_key(&id) {
            self.streams.insert(id, false);
        }
    }
}

/// What follows when the transport took a packet in.
pub fn on_receive(result: Result<usize, TransportError>) -> (step: ReceiveStep)
    ensures
        step == match result {
            Ok(_) => ReceiveStep::Dispatch,
            Err(TransportError::Done) => ReceiveStep::Continue,
            Err(_) => ReceiveStep::Stop,
        },
{
    match result {
        Ok(_) => ReceiveStep::Dispatch,
        Err(TransportError::Done) => ReceiveStep::Continue,
        Err(_) => ReceiveStep::Stop,
    }
}

/// What follows when the transport was asked for a packet.
pub fn on_send(result: Result<usize, TransportError>) -> (step: PumpStep)
    ensures
        step == match result {
            Ok(length) => PumpStep::Transmit { length },
            Err(TransportError::Done) => PumpStep::AwaitStream,
            Err(_) => PumpStep::Stop,
        },
{
    match result {
        Ok(length) => PumpStep::Transmit { length },
        Err(TransportError::Done) => PumpStep::AwaitStream,
        Err(_) => PumpStep::Stop,
    }
}

/// A stream that becomes readable for the first time is accepted; while a task receives from it, it
/// is left alone; once the task has finished it is received from again, without being accepted
/// again.
pub proof fn law_readable_streams_get_one_task(
    first: &mut QomtConnection,
    second: &mut QomtConnection,
    finished: &mut QomtConnection,
    third: &mut QomtConnection,
    id: u64,
    step: ReadableStep,
    step_then: ReadableStep,
    step_last: ReadableStep,
)
    requires
        !old(first)@.contains_key(id),
        call_ensures(QomtConnection::on_readable, (first, id), step),
        old(second)@ == final(first)@,
        call_ensures(QomtConnection::on_readable, (second, id), step_then),
        old(finished)@ == final(second)@,
        call_ensures(QomtConnection::receive_task_finished, (finished, id), ()),
        old(third)@ == final(finished)@,
        call_ensures(QomtConnection::on_readable, (third, id), step_last),
    ensures
        step is AcceptAndReceive,
        step_then is Skip,
        step_last is Receive,
{
}

/// A packet that was received is dispatched and one that was made is transmitted at its length;
/// having nothing to do is no error; any other error stops.
pub proof fn law_transport_results_drive_the_pumps(
    result: Result<usize, TransportError>,
    received: ReceiveStep,
    sent: PumpStep,
)
    requires
        call_ensures(on_receive, (result,), received),
        call_ensures(on_send, (result,), sent),
    ensures
        received is Dispatch <==> result is Ok,
        received is Continue <==> result == Err::<usize, _>(TransportError::Done),
        result matches Ok(length) ==> sent == (PumpStep::Transmit { length }),
        sent is Transmit <==> result is Ok,
        sent is AwaitStream <==> result == Err::<usize, _>(TransportError::Done),
{
}

/// Datagrams are no larger than an Ethernet frame takes; a stream is read and written by 16 KiB and
/// holds 256 KiB.
pub proof fn law_sizes_of_the_tunnel()
    ensures
        MAX_DATAGRAM_SIZE == 1_500,
        READ_WRITE_BUFFER_SIZE == 16 * 1_024,
        STREAM_MAX_BUFFER_SIZE == 256 * 1_024,
{
}

} // verus!
