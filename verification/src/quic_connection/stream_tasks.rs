//! The decisions of the two tasks that serve one stream.

use vstd::prelude::*;

use super::connection::StreamSignals;
use super::error::TransportError;

verus! {

/// The bytes that a stream task moves at a time.
pub const READ_WRITE_BUFFER_SIZE: usize = 8192;

/// The bytes that wait between a stream and the application.
pub const STREAM_PIPE_BUFFER_SIZE: usize = 8192;

/// How long a blocked sending task waits before it tries again.
pub const SEND_RETRY_MILLIS: u64 = 1_000;

/// The length that the transport accepted, or `None` where it is blocked.
///
/// An empty final write that the transport answers with `Done` is already queued: it counts as
/// accepted.
pub fn normalize_stream_send_result(result: Result<usize, TransportError>, empty_fin: bool) -> (r:
    Result<Option<usize>, TransportError>)
    ensures
        r == match result {
            Ok(length) => Ok(Some(length)),
            Err(TransportError::Done) => if empty_fin {
                Ok(Some(0usize))
            } else {
                Ok(None)
            },
            Err(error) => Err(error),
        },
{
    match result {
        Ok(length) => Ok(Some(length)),
        Err(TransportError::Done) => if empty_fin {
            Ok(Some(0))
        } else {
            Ok(None)
        },
        Err(error) => Err(error),
    }
}

/// What the sending task does next.
#[derive(Clone, Copy, Debug, PartialEq, Eq, Structural)]
pub enum StreamSendAction {
    /// Offer the transport the rest of the chunk.
    Send,
    /// The chunk is accepted: read the next one from the application.
    ReadNext,
    /// The end of the stream is accepted.
    Finished,
    /// Wait for room, then offer the rest again.
    AwaitRoom,
    /// The stream cannot be sent on.
    Abandon,
}

/// A chunk read from the application, and how much of it the transport has accepted. An empty
/// chunk is the end of the stream.
pub struct StreamSend {
    total_length: usize,
    offset: usize,
}

impl StreamSend {
    pub closed spec fn total(&self) -> int {
        self.total_length as int
    }

    /// The bytes accepted so far.
    pub closed spec fn accepted(&self) -> int {
        self.offset as int
    }

    pub open spec fn valid(&self) -> bool {
        0 <= self.accepted() <= self.total()
    }

    pub fn new(total_length: usize) -> (send: Self)
        ensures
            send.total() == total_length,
            send.accepted() == 0,
            send.valid(),
    {
        StreamSend { total_length, offset: 0 }
    }

    /// Where the rest of the chunk begins.
    pub fn offset(&self) -> (offset: usize)
        ensures
            offset == self.accepted(),
    {
        self.offset
    }

    pub fn is_fin(&self) -> (result: bool)
        ensures
            result == (self.total() == 0),
    {
        self.total_length == 0
    }

    /// Takes in the transport's answer to the rest of the chunk. `stream_gone` says that the
    /// transport no longer has the stream or that the peer stopped it.
    pub fn on_result(&mut self, result: Result<usize, TransportError>, stream_gone: bool) -> (action:
        StreamSendAction)
        requires
            old(self).valid(),
            result matches Ok(length) ==> length <= old(self).total() - old(self).accepted(),
        ensures
            final(self).valid(),
            final(self).total() == old(self).total(),
            ({
                let fin_done = result == Err::<usize, TransportError>(TransportError::Done)
                    && old(self).total() == 0;
                let accepted = if fin_done {
                    Some(0int)
                } else {
                    match result {
                        Ok(length) => Some(length as int),
                        Err(_) => None,
                    }
                };
                match accepted {
                    Some(length) => {
                        &&& final(self).accepted() == old(self).accepted() + length
                        &&& action == if final(self).accepted() < final(self).total() {
                            StreamSendAction::Send
                        } else if final(self).total() == 0 {
                            StreamSendAction::Finished
                        } else {
                            StreamSendAction::ReadNext
                        }
                    },
                    None => {
                        &&& final(self).accepted() == old(self).accepted()
                        &&& action == if result == Err::<usize, TransportError>(
                            TransportError::Done,
                        ) && !stream_gone {
                            StreamSendAction::AwaitRoom
                        } else {
                            StreamSendAction::Abandon
                        }
                    },
                }
            }),
    {
        match normalize_stream_send_result(result, self.total_length == 0) {
            Ok(Some(length)) => {
                self.offset = self.offset + length;
                if self.offset < self.total_length {
                    StreamSendAction::Send
                } else if self.total_length == 0 {
                    StreamSendAction::Finished
                } else {
                    StreamSendAction::ReadNext
                }
            },
            Ok(None) => if stream_gone {
                StreamSendAction::Abandon
            } else {
                StreamSendAction::AwaitRoom
            },
            Err(_) => StreamSendAction::Abandon,
        }
    }
}

/// The bytes of a chunk that the transport has accepted after it accepted so many bytes at each
/// offer.
pub open spec fn accepted_after(lengths: Seq<usize>) -> int
    decreases lengths.len(),
{
    if lengths.len() == 0 {
        0
    } else {
        accepted_after(lengths.drop_last()) + lengths.last()
    }
}

/// What the transport has taken from a chunk: at each offer, the first bytes of the rest of the
/// chunk.
pub open spec fn taken(chunk: Seq<u8>, lengths: Seq<usize>) -> Seq<u8>
    decreases lengths.len(),
{
    if lengths.len() == 0 {
        Seq::empty()
    } else {
        let before = lengths.drop_last();
        taken(chunk, before) + chunk.subrange(
            accepted_after(before),
            accepted_after(before) + lengths.last(),
        )
    }
}

/// However the transport divides a chunk up, it takes the bytes of the chunk in their order and
/// each of them once; when the next chunk is read it has taken this one whole.
pub proof fn law_chunks_are_sent_in_order(chunk: Seq<u8>, lengths: Seq<usize>)
    requires
        accepted_after(lengths) <= chunk.len(),
    ensures
        taken(chunk, lengths) == chunk.take(accepted_after(lengths)),
        accepted_after(lengths) == chunk.len() ==> taken(chunk, lengths) == chunk,
    decreases lengths.len(),
{
    lemma_accepted_is_positive(lengths);
    if lengths.len() > 0 {
        let before = lengths.drop_last();
        lemma_accepted_is_positive(before);
        law_chunks_are_sent_in_order(chunk, before);
        assert(taken(chunk, lengths) =~= chunk.take(accepted_after(lengths)));
    } else {
        assert(taken(chunk, lengths) =~= chunk.take(0));
    }
    assert(chunk.take(chunk.len() as int) =~= chunk);
}

proof fn lemma_accepted_is_positive(lengths: Seq<usize>)
    ensures
        0 <= accepted_after(lengths),
    decreases lengths.len(),
{
    if lengths.len() > 0 {
        lemma_accepted_is_positive(lengths.drop_last());
    }
}

/// Whether the transport's answer to a question for room means that the stream is gone.
pub fn capacity_says_gone(capacity: Result<usize, TransportError>) -> (gone: bool)
    ensures
        gone == match capacity {
            Err(TransportError::InvalidStreamState(_)) => true,
            Err(TransportError::StreamStopped(_)) => true,
            _ => false,
        },
{
    match capacity {
        Err(TransportError::InvalidStreamState(_)) => true,
        Err(TransportError::StreamStopped(_)) => true,
        _ => false,
    }
}

/// What the receiving task does next.
#[derive(Clone, Copy, Debug, PartialEq, Eq, Structural)]
pub enum StreamRecvAction {
    /// Wait until the sending task has reached the transport.
    AwaitCreated,
    /// The application is gone: stop the peer and end.
    StopPeer,
    /// Ask the transport for data.
    Receive,
    /// Hand so many bytes to the application, then receive on.
    Deliver { length: usize },
    /// Hand so many bytes to the application, then end.
    DeliverLast { length: usize },
    /// Wait until the stream is readable.
    AwaitReadable,
    /// The stream is over, or cannot be received on.
    End,
}

/// What the receiving task does at the top of its loop. It must not act on a stream that the
/// transport does not know: stopping such a stream would be lost.
pub fn next_recv_action(signals: StreamSignals) -> (action: StreamRecvAction)
    ensures
        action == if !signals.created {
            StreamRecvAction::AwaitCreated
        } else if signals.external_dropped {
            StreamRecvAction::StopPeer
        } else {
            StreamRecvAction::Receive
        },
{
    if !signals.created {
        StreamRecvAction::AwaitCreated
    } else if signals.external_dropped {
        StreamRecvAction::StopPeer
    } else {
        StreamRecvAction::Receive
    }
}

/// What follows from the transport's answer. `finished` says that the transport has seen the
/// whole stream, which holds on after the stream itself was collected.
pub fn on_recv_result(result: Result<(usize, bool), TransportError>, finished: bool) -> (action:
    StreamRecvAction)
    ensures
        action == match result {
            Ok((length, last)) => if last {
                StreamRecvAction::DeliverLast { length }
            } else {
                StreamRecvAction::Deliver { length }
            },
            Err(error) => if !finished && error == TransportError::Done {
                StreamRecvAction::AwaitReadable
            } else {
                StreamRecvAction::End
            },
        },
{
    match result {
        Ok((length, last)) => if last {
            StreamRecvAction::DeliverLast { length }
        } else {
            StreamRecvAction::Deliver { length }
        },
        Err(error) => if finished {
            StreamRecvAction::End
        } else {
            match error {
                TransportError::Done => StreamRecvAction::AwaitReadable,
                _ => StreamRecvAction::End,
            }
        },
    }
}

/// A transport that is done has simply no room, except that the end of a stream needs none: it is
/// then sent.
pub proof fn law_ends_of_streams_need_no_room(
    result: Result<usize, TransportError>,
    empty_fin: bool,
    normal: Result<Option<usize>, TransportError>,
)
    requires
        call_ensures(normalize_stream_send_result, (result, empty_fin), normal),
    ensures
        result matches Ok(length) ==> normal == Ok::<_, TransportError>(Some(length)),
        result == Err::<usize, _>(TransportError::Done) ==> normal == Ok::<_, TransportError>(
            if empty_fin {
                Some(0usize)
            } else {
                None
            },
        ),
        result is Err && result != Err::<usize, _>(TransportError::Done) ==> normal is Err,
{
}

/// A stream is received from once it was created and while its reader is there; what came is
/// delivered at its length, the last of it as such; having nothing is waited out unless the stream
/// is finished.
pub proof fn law_streams_are_received_to_their_end(
    signals: StreamSignals,
    next: StreamRecvAction,
    result: Result<(usize, bool), TransportError>,
    finished: bool,
    action: StreamRecvAction,
)
    requires
        call_ensures(next_recv_action, (signals,), next),
        call_ensures(on_recv_result, (result, finished), action),
    ensures
        next is AwaitCreated <==> !signals.created,
        next is Receive <==> signals.created && !signals.external_dropped,
        next is StopPeer <==> signals.created && signals.external_dropped,
        result matches Ok((length, true)) ==> action == (StreamRecvAction::DeliverLast { length }),
        result matches Ok((length, false)) ==> action == (StreamRecvAction::Deliver { length }),
        action is AwaitReadable <==> result == Err::<(usize, bool), _>(TransportError::Done)
            && !finished,
        result is Err && action !is AwaitReadable ==> action is End,
{
}

/// A stream is gone for its sender where its state is invalid or the peer stopped it.
pub proof fn law_stopped_streams_are_gone(capacity: Result<usize, TransportError>, gone: bool)
    requires
        call_ensures(capacity_says_gone, (capacity,), gone),
    ensures
        capacity is Ok ==> !gone,
        capacity matches Err(error) ==> (gone <==> error is InvalidStreamState || error
            is StreamStopped),
{
}

/// What the transport accepts of a chunk adds up until all of it is accepted; then the next chunk
/// is read, or, behind the empty chunk that ends the stream, nothing. Without room the sender waits
/// unless the stream is gone; any other error gives the stream up.
pub proof fn law_chunks_are_sent_whole(
    send: &mut StreamSend,
    result: Result<usize, TransportError>,
    stream_gone: bool,
    action: StreamSendAction,
)
    requires
        old(send).valid(),
        result matches Ok(length) ==> length <= old(send).total() - old(send).accepted(),
        call_ensures(StreamSend::on_result, (send, result, stream_gone), action),
    ensures
        result matches Ok(length) ==> final(send).accepted() == old(send).accepted() + length,
        result is Err ==> final(send).accepted() == old(send).accepted(),
        result is Ok && old(send).total() > 0 ==> (action is ReadNext <==> final(send).accepted()
            == old(send).total()) && (action is Send <==> final(send).accepted() < old(
            send).total()),
        action is Finished ==> old(send).total() == 0,
        old(send).total() == 0 && (result is Ok || result == Err::<usize, _>(
            TransportError::Done,
        )) ==> action is Finished,
        old(send).total() > 0 && result == Err::<usize, _>(TransportError::Done) ==> (action
            is AwaitRoom <==> !stream_gone),
        result is Err && action !is AwaitRoom && action !is Finished ==> action is Abandon,
        result is Err && result != Err::<usize, _>(TransportError::Done) ==> action is Abandon,
{
}

/// Nothing of a chunk is sent when its sending begins.
pub proof fn law_sending_begins_at_the_front(total_length: usize, send: StreamSend)
    requires
        call_ensures(StreamSend::new, (total_length,), send),
    ensures
        send.accepted() == 0,
        send.total() == total_length,
{
}

/// A chunk that did not fit is tried again after a second.
pub proof fn law_sending_is_tried_every_second()
    ensures
        SEND_RETRY_MILLIS == 1_000,
{
}

} // verus!
