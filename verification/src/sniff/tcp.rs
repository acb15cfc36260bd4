//! Sniffing a TCP stream and replaying what was read from it.

use vstd::prelude::*;

use super::http::{
    header_end, http_finding, lemma_http_decision_is_final, sniff_http_request, MAX_HTTP_HEADER,
};
use super::outcome::{Finding, SniffOutcome, SniffedDomain};
use super::tls::{
    lemma_records_decision_is_final, records_finding, sniff_tls_client_hello, MAX_TLS_CLIENT_HELLO,
};
use crate::text::find;
use crate::time::TimeSpan;

verus! {

/// The largest read made while sniffing.
pub const SNIFF_READ_SIZE: usize = 4096;

/// What the first bytes of a TCP stream give: TLS where they begin with a handshake record,
/// HTTP otherwise.
pub open spec fn prefix_finding(buffer: Seq<u8>) -> Finding {
    if buffer.len() == 0 {
        Finding::NeedMoreData
    } else if buffer[0] == 22 {
        records_finding(buffer, Seq::empty())
    } else {
        http_finding(buffer)
    }
}

/// Sniffing is settled by what it first decides: bytes that come later do not change the
/// decision. The one exception is an HTTP header given up for its length.
pub proof fn law_sniffing_decision_is_final(buffer: Seq<u8>, more: Seq<u8>)
    requires
        prefix_finding(buffer) !is NeedMoreData,
        buffer[0] == 22 || buffer.len() < MAX_HTTP_HEADER || find(buffer, header_end()) is Some,
    ensures
        prefix_finding(buffer + more) == prefix_finding(buffer),
{
    assert((buffer + more)[0] == buffer[0]);
    if buffer[0] == 22 {
        lemma_records_decision_is_final(buffer, Seq::empty(), more);
    } else {
        lemma_http_decision_is_final(buffer, more);
    }
}

/// Where a stream has not decided yet, no shorter prefix of it has: each asks for more data.
pub proof fn law_undecided_prefixes_ask_for_more(buffer: Seq<u8>, length: int)
    requires
        0 <= length <= buffer.len(),
        buffer.len() <= MAX_HTTP_HEADER,
        prefix_finding(buffer) is NeedMoreData,
    ensures
        prefix_finding(buffer.take(length)) is NeedMoreData,
{
    let prefix = buffer.take(length);
    assert(prefix + buffer.skip(length) =~= buffer);
    if prefix_finding(prefix) !is NeedMoreData {
        if length < MAX_HTTP_HEADER || prefix[0] == 22 {
            law_sniffing_decision_is_final(prefix, buffer.skip(length));
        } else {
            assert(prefix =~= buffer);
        }
    }
}

/// The domain that the first bytes of a TCP stream name.
pub fn sniff_tcp_prefix(buffer: &[u8]) -> (outcome: SniffOutcome)
    ensures
        outcome@ == prefix_finding(buffer@),
{
    if buffer.len() == 0 {
        return SniffOutcome::NeedMoreData;
    }
    if buffer[0] == 22 {
        return sniff_tls_client_hello(buffer);
    }
    sniff_http_request(buffer)
}

/// Limits on how much of a TCP stream is looked at and for how long.
#[derive(Clone, Copy, Debug)]
pub struct TcpSniffOptions {
    pub max_bytes: usize,
    pub timeout: TimeSpan,
}

impl Default for TcpSniffOptions {
    fn default() -> (options: Self)
        ensures
            options.max_bytes == MAX_TLS_CLIENT_HELLO,
            options.max_bytes == MAX_HTTP_HEADER,
            options.timeout.nanos == 1_000_000_000,
    {
        TcpSniffOptions { max_bytes: MAX_TLS_CLIENT_HELLO, timeout: TimeSpan::from_secs(1) }
    }
}

/// A stream whose first bytes were already read: they are replayed before the stream goes on.
pub struct ReplayStream<S> {
    prefix: Vec<u8>,
    prefix_offset: usize,
    pub inner: S,
}

impl<S> ReplayStream<S> {
    pub closed spec fn wf(&self) -> bool {
        self.prefix_offset <= self.prefix@.len()
    }

    /// The bytes that are still to be replayed.
    pub closed spec fn pending(&self) -> Seq<u8> {
        self.prefix@.skip(self.prefix_offset as int)
    }

    /// The stream behind the replayed bytes.
    pub closed spec fn inner_stream(&self) -> S {
        self.inner
    }

    pub fn new(prefix: Vec<u8>, inner: S) -> (stream: Self)
        ensures
            stream.wf(),
            stream.pending() == prefix@,
            stream.inner_stream() == inner,
    {
        let stream = ReplayStream { prefix, prefix_offset: 0, inner };
        proof {
            assert(prefix@.skip(0) =~= prefix@);
        }
        stream
    }

    pub fn into_inner(self) -> (inner: S)
        ensures
            inner == self.inner_stream(),
    {
        self.inner
    }

    /// One read into a buffer with room for `capacity` bytes: the bytes to replay, or `None`
    /// where the read goes to the inner stream.
    pub fn replay(&mut self, capacity: usize) -> (result: Option<Vec<u8>>)
        requires
            old(self).wf(),
        ensures
            final(self).wf(),
            final(self).inner_stream() == old(self).inner_stream(),
            match result {
                Some(bytes) => 0 < bytes@.len() <= capacity && bytes@ + final(self).pending()
                    == old(self).pending() && (bytes@.len() == capacity
                    || final(self).pending().len() == 0),
                None => final(self).pending() == old(self).pending() && (old(self).pending().len()
                    == 0 || capacity == 0),
            },
    {
        if self.prefix_offset >= self.prefix.len() || capacity == 0 {
            return None;
        }
        let available: usize = self.prefix.len() - self.prefix_offset;
        let length: usize = if available < capacity {
            available
        } else {
            capacity
        };
        let end: usize = self.prefix_offset + length;
        let bytes: Vec<u8> = vstd::slice::slice_to_vec(
            vstd::slice::slice_subrange(self.prefix.as_slice(), self.prefix_offset, end),
        );
        self.prefix_offset = end;
        proof {
            assert(bytes@ + self.pending() =~= old(self).pending());
        }
        Some(bytes)
    }
}

/// A sniffed stream: what was found, and the stream with the bytes read put back.
pub struct SniffedTcpStream<S> {
    pub domain: Option<SniffedDomain>,
    pub stream: ReplayStream<S>,
}

/// What happened to the stream since the last step.
pub enum TcpSniffEvent {
    Started,
    Read(Vec<u8>),
    TimedOut,
}

/// What is to be done next with the stream.
pub enum TcpSniffAction {
    /// Read up to so many bytes.
    Read(usize),
    /// Sniffing is over.
    Finish(Option<SniffedDomain>),
}

/// The mathematical form of a `TcpSniffAction`.
pub enum SniffStep {
    Read(int),
    Finish(Option<(super::outcome::SniffedProtocol, Seq<char>)>),
}

impl View for TcpSniffAction {
    type V = SniffStep;

    open spec fn view(&self) -> SniffStep {
        match self {
            TcpSniffAction::Read(length) => SniffStep::Read(*length as int),
            TcpSniffAction::Finish(domain) => SniffStep::Finish(
                match domain {
                    Some(domain) => Some(domain@),
                    None => None,
                },
            ),
        }
    }
}

/// The step that follows when `prefix` has been read under a limit of `max_bytes`.
pub open spec fn sniff_step(prefix: Seq<u8>, max_bytes: int) -> SniffStep {
    match prefix_finding(prefix) {
        Finding::Domain(protocol, domain) => SniffStep::Finish(Some((protocol, domain))),
        Finding::NoDomain => SniffStep::Finish(None),
        Finding::NeedMoreData => if prefix.len() >= max_bytes {
            SniffStep::Finish(None)
        } else if max_bytes - prefix.len() < SNIFF_READ_SIZE {
            SniffStep::Read(max_bytes - prefix.len())
        } else {
            SniffStep::Read(SNIFF_READ_SIZE as int)
        },
    }
}

/// Decides, read by read, when a TCP stream has been looked at long enough.
pub struct TcpSniffer {
    prefix: Vec<u8>,
    max_bytes: usize,
}

impl TcpSniffer {
    /// The bytes read so far.
    pub closed spec fn prefix(&self) -> Seq<u8> {
        self.prefix@
    }

    pub closed spec fn limit(&self) -> int {
        self.max_bytes as int
    }

    pub fn new(options: &TcpSniffOptions) -> (sniffer: Self)
        ensures
            sniffer.prefix().len() == 0,
            sniffer.limit() == if options.max_bytes == 0 {
                1int
            } else {
                options.max_bytes as int
            },
    {
        let max_bytes: usize = if options.max_bytes == 0 {
            1
        } else {
            options.max_bytes
        };
        TcpSniffer { prefix: Vec::new(), max_bytes }
    }

    /// Takes in an event and says what to do next. A timeout and the end of the stream finish
    /// without a domain.
    pub fn step(&mut self, event: TcpSniffEvent) -> (action: TcpSniffAction)
        ensures
            final(self).limit() == old(self).limit(),
            match event {
                TcpSniffEvent::Started => final(self).prefix() == old(self).prefix() && action@
                    == sniff_step(final(self).prefix(), final(self).limit()),
                TcpSniffEvent::TimedOut => final(self).prefix() == old(self).prefix() && action@
                    == SniffStep::Finish(None),
                TcpSniffEvent::Read(bytes) => final(self).prefix() == old(self).prefix() + bytes@
                    && action@ == if bytes@.len() == 0 {
                    SniffStep::Finish(None)
                } else {
                    sniff_step(final(self).prefix(), final(self).limit())
                },
            },
    {
        match event {
            TcpSniffEvent::Started => {},
            TcpSniffEvent::TimedOut => {
                return TcpSniffAction::Finish(None);
            },
            TcpSniffEvent::Read(bytes) => {
                self.prefix.extend_from_slice(bytes.as_slice());
                assert(self.prefix@ =~= old(self).prefix@ + bytes@);
                if bytes.len() == 0 {
                    return TcpSniffAction::Finish(None);
                }
            },
        }
        match sniff_tcp_prefix(self.prefix.as_slice()) {
            SniffOutcome::Domain(domain) => TcpSniffAction::Finish(Some(domain)),
            SniffOutcome::NoDomain => TcpSniffAction::Finish(None),
            SniffOutcome::NeedMoreData => {
                if self.prefix.len() >= self.max_bytes {
                    return TcpSniffAction::Finish(None);
                }
                let remaining: usize = self.max_bytes - self.prefix.len();
                if remaining < SNIFF_READ_SIZE {
                    TcpSniffAction::Read(remaining)
                } else {
                    TcpSniffAction::Read(SNIFF_READ_SIZE)
                }
            },
        }
    }

    /// Puts the bytes read back in front of the stream.
    pub fn finish<S>(self, domain: Option<SniffedDomain>, stream: S) -> (sniffed: SniffedTcpStream<
        S,
    >)
        ensures
            sniffed.domain == domain,
            sniffed.stream.wf(),
            sniffed.stream.pending() == self.prefix(),
            sniffed.stream.inner_stream() == stream,
    {
        SniffedTcpStream { domain, stream: ReplayStream::new(self.prefix, stream) }
    }
}

/// A stream that begins with a handshake record is read as TLS, any other as HTTP.
pub proof fn law_first_byte_tells_the_protocol(buffer: Seq<u8>)
    ensures
        prefix_finding(buffer) matches Finding::Domain(protocol, _) ==> buffer.len() > 0,
        buffer.len() > 0 && buffer[0] == 22 ==> prefix_finding(buffer) == records_finding(
            buffer,
            Seq::empty(),
        ),
        buffer.len() > 0 && buffer[0] != 22 ==> prefix_finding(buffer) == http_finding(buffer),
        buffer.len() == 0 ==> prefix_finding(buffer) is NeedMoreData,
{
}

/// Sniffing reads on exactly while nothing is decided and the limit is not reached, and never asks
/// for more than the limit leaves nor for more than 4096 bytes at a time; the end of the stream and
/// the time limit finish it without a domain. What was read is kept.
pub proof fn law_sniffing_reads_within_its_limit(
    sniffer: &mut TcpSniffer,
    event: TcpSniffEvent,
    action: TcpSniffAction,
)
    requires
        call_ensures(TcpSniffer::step, (sniffer, event), action),
    ensures
        event matches TcpSniffEvent::Read(bytes) ==> final(sniffer).prefix() == old(
            sniffer).prefix() + bytes@,
        event is TimedOut || (event matches TcpSniffEvent::Read(bytes) && bytes@.len() == 0)
            ==> action == TcpSniffAction::Finish(None),
        action matches TcpSniffAction::Read(length) ==> 0 < length <= 4096 && final(
            sniffer).prefix().len() + length <= final(sniffer).limit() && prefix_finding(
            final(sniffer).prefix(),
        ) is NeedMoreData,
        action matches TcpSniffAction::Finish(Some(found)) ==> prefix_finding(
            final(sniffer).prefix(),
        ) == Finding::Domain(found.protocol, found.domain@),
        event is Started && final(sniffer).prefix().len() < final(sniffer).limit()
            && prefix_finding(final(sniffer).prefix()) is NeedMoreData ==> action is Read,
        event is Started && prefix_finding(final(sniffer).prefix()) is Domain ==> action
            matches TcpSniffAction::Finish(Some(_)),
        (event matches TcpSniffEvent::Read(bytes) && bytes@.len() > 0) && prefix_finding(
            final(sniffer).prefix(),
        ) is Domain ==> action matches TcpSniffAction::Finish(Some(_)),
        (event matches TcpSniffEvent::Read(bytes) && bytes@.len() > 0) && prefix_finding(
            final(sniffer).prefix(),
        ) is NeedMoreData && final(sniffer).prefix().len() < final(sniffer).limit() ==> action
            is Read,
{
}

/// Whoever reads a sniffed stream gets every byte that sniffing took, in its order, before the rest
/// of the stream.
pub proof fn law_sniffed_bytes_are_replayed<S>(
    sniffer: TcpSniffer,
    domain: Option<SniffedDomain>,
    stream: S,
    sniffed: SniffedTcpStream<S>,
    read: &mut ReplayStream<S>,
    capacity: usize,
    bytes: Option<Vec<u8>>,
)
    requires
        call_ensures(TcpSniffer::finish::<S>, (sniffer, domain, stream), sniffed),
        *old(read) == sniffed.stream,
        capacity > 0,
        call_ensures(ReplayStream::<S>::replay, (read, capacity), bytes),
    ensures
        sniffed.domain == domain,
        bytes is Some <==> sniffer.prefix().len() > 0,
        bytes matches Some(bytes) ==> bytes@ + final(read).pending() == sniffer.prefix(),
        bytes matches Some(bytes) ==> bytes@.len() == (if sniffer.prefix().len() < capacity {
            sniffer.prefix().len() as int
        } else {
            capacity as int
        }),
{
}

/// Sniffing begins with nothing read, and looks at one byte at least.
pub proof fn law_sniffing_begins_with_nothing(options: TcpSniffOptions, sniffer: TcpSniffer)
    requires
        call_ensures(TcpSniffer::new, (&options,), sniffer),
    ensures
        sniffer.prefix().len() == 0,
        options.max_bytes > 0 ==> sniffer.limit() == options.max_bytes,
        options.max_bytes == 0 ==> sniffer.limit() == 1,
{
}

} // verus!
