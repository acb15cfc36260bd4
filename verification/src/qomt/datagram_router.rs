//! Shares the datagrams of one connection among associations.
//!
//! A datagram on the wire is a version byte, the association id in eight bytes, and the payload.

use std::collections::{HashMap, VecDeque};

use vstd::prelude::*;

use crate::framing::{be64, leading_be64, lemma_be64};
use crate::quic_connection::QuicDatagramSendError;

verus! {

broadcast use vstd::std_specs::hash::group_hash_axioms;

pub const QOMT_DATAGRAM_WIRE_VERSION: u8 = 1;

/// The bytes in front of the payload.
pub const QOMT_DATAGRAM_ENVELOPE_SIZE: usize = 9;

/// The datagrams that wait for one association. Later ones are dropped.
pub const QOMT_DATAGRAM_ASSOCIATION_QUEUE_CAPACITY: usize = 32;

pub const QOMT_MAX_DATAGRAM_ASSOCIATIONS: usize = 4096;

/// A payload in its envelope.
pub open spec fn envelope(association_id: u64, payload: Seq<u8>) -> Seq<u8> {
    seq![QOMT_DATAGRAM_WIRE_VERSION] + be64(association_id) + payload
}

/// A datagram that has an envelope of the known version.
pub open spec fn well_formed(datagram: Seq<u8>) -> bool {
    datagram.len() >= QOMT_DATAGRAM_ENVELOPE_SIZE && datagram[0] == QOMT_DATAGRAM_WIRE_VERSION
}

/// The association that a well-formed datagram is for.
pub open spec fn addressee(datagram: Seq<u8>) -> u64 {
    leading_be64(datagram.skip(1)) as u64
}

pub open spec fn payload_of(datagram: Seq<u8>) -> Seq<u8> {
    datagram.skip(QOMT_DATAGRAM_ENVELOPE_SIZE as int)
}

/// The envelope names the association and keeps the payload.
pub proof fn law_envelope_round_trip(association_id: u64, payload: Seq<u8>)
    ensures
        well_formed(envelope(association_id, payload)),
        addressee(envelope(association_id, payload)) == association_id,
        payload_of(envelope(association_id, payload)) == payload,
{
    let datagram = envelope(association_id, payload);
    assert(datagram.skip(1) =~= be64(association_id) + payload);
    lemma_be64(association_id);
    assert(leading_be64(datagram.skip(1)) == leading_be64(be64(association_id))) by {
        assert forall|i: int| 0 <= i < 8 implies datagram.skip(1)[i] == be64(association_id)[i] by {}
    }
    assert(payload_of(datagram) =~= payload);
}

/// What has happened to datagrams so far.
#[derive(Clone, Copy, Debug, PartialEq, Eq, Structural)]
pub struct QomtDatagramStats {
    pub sent: u64,
    pub dropped_send_queue_full: u64,
    pub received: u64,
    pub dropped_unknown_association: u64,
    pub dropped_receive_queue_full: u64,
    pub dropped_malformed: u64,
}

impl QomtDatagramStats {
    pub open spec fn zero() -> QomtDatagramStats {
        QomtDatagramStats {
            sent: 0,
            dropped_send_queue_full: 0,
            received: 0,
            dropped_unknown_association: 0,
            dropped_receive_queue_full: 0,
            dropped_malformed: 0,
        }
    }
}

impl Default for QomtDatagramStats {
    fn default() -> (stats: Self)
        ensures
            stats == QomtDatagramStats::zero(),
    {
        QomtDatagramStats {
            sent: 0,
            dropped_send_queue_full: 0,
            received: 0,
            dropped_unknown_association: 0,
            dropped_receive_queue_full: 0,
            dropped_malformed: 0,
        }
    }
}

/// A counter after one more event. It starts over when it is full.
pub open spec fn bumped(counter: u64) -> u64 {
    if counter == u64::MAX {
        0
    } else {
        (counter + 1) as u64
    }
}

pub(crate) fn bump(counter: u64) -> (result: u64)
    ensures
        result == bumped(counter),
{
    if counter == u64::MAX {
        0
    } else {
        counter + 1
    }
}

/// Why an association cannot be registered.
#[derive(Clone, Copy, Debug, PartialEq, Eq, Structural)]
pub enum RegistrationError {
    AlreadyExists,
    LimitReached,
}

/// The place of an association in the router. The token tells it from later registrations of the
/// same association.
#[derive(Clone, Copy, Debug, PartialEq, Eq, Structural)]
pub struct QomtDatagramRegistration {
    pub association_id: u64,
    pub token: u64,
}

/// What became of a datagram to send.
#[derive(Clone, Copy, Debug, PartialEq, Eq, Structural)]
pub enum QomtDatagramSendOutcome {
    Queued,
    Unavailable,
    TooLarge,
    QueueFull,
    Failed(QuicDatagramSendError),
}

/// A datagram that is ready for the transport, or the reason why there is none.
#[derive(Clone, Debug, PartialEq, Eq)]
pub enum PreparedDatagram {
    Send(Vec<u8>),
    Unavailable,
    TooLarge,
}

/// What an association finds when it looks for a datagram.
#[derive(Clone, Debug, PartialEq, Eq)]
pub enum TryReceive {
    Datagram(Vec<u8>),
    Empty,
    /// The association is not registered any more and nothing is left.
    Disconnected,
}

/// The mathematical form of a `QomtDatagramRouter`.
#[verifier::ext_equal]
pub struct RouterModel {
    /// The generation of the transport in use.
    pub active: Option<u64>,
    pub next_generation: u64,
    /// The token of each registered association.
    pub routes: Map<u64, u64>,
    /// The datagrams that wait for each receiver that still listens, by its token.
    pub queues: Map<u64, Seq<Seq<u8>>>,
    pub next_token: int,
    pub stats: QomtDatagramStats,
}

impl RouterModel {
    /// Tokens were all given out, each to one association, and no queue is over its capacity.
    pub open spec fn valid(self) -> bool {
        &&& forall|id: u64| #[trigger]
            self.routes.contains_key(id) ==> self.routes[id] < self.next_token
        &&& forall|token: u64| #[trigger]
            self.queues.contains_key(token) ==> token < self.next_token
        &&& forall|token: u64| #[trigger]
            self.queues.contains_key(token) ==> self.queues[token].len()
                <= QOMT_DATAGRAM_ASSOCIATION_QUEUE_CAPACITY
        &&& forall|a: u64, b: u64| #[trigger]
            self.routes.contains_key(a) && #[trigger] self.routes.contains_key(b) && self.routes[a]
                == self.routes[b] ==> a == b
        &&& self.routes.dom().finite()
        &&& self.routes.len() <= QOMT_MAX_DATAGRAM_ASSOCIATIONS
    }

    /// The datagrams that wait for a registered association.
    pub open spec fn waiting(self, id: u64) -> Seq<Seq<u8>> {
        self.queues[self.routes[id]]
    }

    /// The association is registered and its receiver listens.
    pub open spec fn listens(self, id: u64) -> bool {
        self.routes.contains_key(id) && self.queues.contains_key(self.routes[id])
    }

    /// The model after a received datagram was handed on.
    pub open spec fn dispatched(self, datagram: Seq<u8>) -> RouterModel {
        let id = addressee(datagram);
        if !well_formed(datagram) {
            RouterModel {
                stats: QomtDatagramStats {
                    dropped_malformed: bumped(self.stats.dropped_malformed),
                    ..self.stats
                },
                ..self
            }
        } else if !self.routes.contains_key(id) {
            RouterModel {
                stats: QomtDatagramStats {
                    dropped_unknown_association: bumped(self.stats.dropped_unknown_association),
                    ..self.stats
                },
                ..self
            }
        } else if !self.listens(id) {
            RouterModel { routes: self.routes.remove(id), ..self }
        } else if self.waiting(id).len() >= QOMT_DATAGRAM_ASSOCIATION_QUEUE_CAPACITY {
            RouterModel {
                stats: QomtDatagramStats {
                    dropped_receive_queue_full: bumped(self.stats.dropped_receive_queue_full),
                    ..self.stats
                },
                ..self
            }
        } else {
            RouterModel {
                queues: self.queues.insert(
                    self.routes[id],
                    self.waiting(id).push(payload_of(datagram)),
                ),
                stats: QomtDatagramStats {
                    received: bumped(self.stats.received),
                    ..self.stats
                },
                ..self
            }
        }
    }

    /// The model after a registration was given up.
    pub open spec fn unregistered(self, registration: QomtDatagramRegistration) -> RouterModel {
        if self.routes.contains_key(registration.association_id)
            && self.routes[registration.association_id] == registration.token {
            RouterModel { routes: self.routes.remove(registration.association_id), ..self }
        } else {
            self
        }
    }
}

/// A datagram goes to the association it names, or is dropped: no other association gets it.
pub proof fn law_associations_are_isolated(model: RouterModel, datagram: Seq<u8>, other: u64)
    requires
        model.valid(),
        model.listens(other),
        other != addressee(datagram) || !well_formed(datagram),
    ensures
        model.dispatched(datagram).listens(other),
        model.dispatched(datagram).waiting(other) == model.waiting(other),
{
    assert(model.routes.contains_key(other));
}

/// What one end puts into an envelope reaches the association of that id at the other end, as
/// long as it listens and its queue has room.
pub proof fn law_enveloped_payload_is_delivered(model: RouterModel, id: u64, payload: Seq<u8>)
    requires
        model.valid(),
        model.listens(id),
        model.waiting(id).len() < QOMT_DATAGRAM_ASSOCIATION_QUEUE_CAPACITY,
    ensures
        model.dispatched(envelope(id, payload)).waiting(id) == model.waiting(id).push(payload),
{
    law_envelope_round_trip(id, payload);
}

/// Shares the datagrams of one connection among associations.
pub struct QomtDatagramRouter {
    active: Option<u64>,
    next_socket_generation: u64,
    routes: HashMap<u64, u64>,
    queues: HashMap<u64, VecDeque<Vec<u8>>>,
    next_token: u64,
    stats: QomtDatagramStats,
}

/// The datagrams of a queue.
pub open spec fn queue_view(queue: VecDeque<Vec<u8>>) -> Seq<Seq<u8>> {
    queue@.map_values(|datagram: Vec<u8>| datagram@)
}

impl View for QomtDatagramRouter {
    type V = RouterModel;

    closed spec fn view(&self) -> RouterModel {
        RouterModel {
            active: self.active,
            next_generation: self.next_socket_generation,
            routes: self.routes@,
            queues: self.queues@.map_values(|queue: VecDeque<Vec<u8>>| queue_view(queue)),
            next_token: self.next_token as int,
            stats: self.stats,
        }
    }
}

impl QomtDatagramRouter {
    pub fn new() -> (router: Self)
        ensures
            router@.valid(),
            router@ == (RouterModel {
                active: None,
                next_generation: 0,
                routes: Map::empty(),
                queues: Map::empty(),
                next_token: 0,
                stats: QomtDatagramStats::zero(),
            }),
    {
        let router = QomtDatagramRouter {
            active: None,
            next_socket_generation: 0,
            routes: HashMap::new(),
            queues: HashMap::new(),
            next_token: 0,
            stats: QomtDatagramStats::default(),
        };
        assert(router@.queues =~= Map::empty());
        router
    }

    /// Whether a token is left to register an association with.
    pub fn can_register(&self) -> (result: bool)
        ensures
            result == (self@.next_token < u64::MAX),
    {
        self.next_token < u64::MAX
    }

    /// Registers an association, unless it is registered already or too many are.
    pub fn register(&mut self, association_id: u64) -> (result: Result<
        QomtDatagramRegistration,
        RegistrationError,
    >)
        requires
            old(self)@.valid(),
            old(self)@.next_token < u64::MAX,
        ensures
            final(self)@.valid(),
            match result {
                Ok(registration) => {
                    &&& !old(self)@.routes.contains_key(association_id)
                    &&& old(self)@.routes.len() < QOMT_MAX_DATAGRAM_ASSOCIATIONS
                    &&& registration.association_id == association_id
                    &&& registration.token == old(self)@.next_token
                    &&& final(self)@ == (RouterModel {
                        routes: old(self)@.routes.insert(association_id, registration.token),
                        queues: old(self)@.queues.insert(registration.token, Seq::empty()),
                        next_token: old(self)@.next_token + 1,
                        ..old(self)@
                    })
                },
                Err(RegistrationError::AlreadyExists) => final(self)@ == old(self)@
                    && old(self)@.routes.contains_key(association_id),
                Err(RegistrationError::LimitReached) => final(self)@ == old(self)@
                    && !old(self)@.routes.contains_key(association_id) && old(self)@.routes.len()
                    >= QOMT_MAX_DATAGRAM_ASSOCIATIONS,
            },
    {
        if self.routes.contains_key(&association_id) {
            return Err(RegistrationError::AlreadyExists);
        }
        if self.routes.len() >= QOMT_MAX_DATAGRAM_ASSOCIATIONS {
            return Err(RegistrationError::LimitReached);
        }
        let token: u64 = self.next_token;
        self.next_token = token + 1;
        self.routes.insert(association_id, token);
        let queue: VecDeque<Vec<u8>> = VecDeque::new();
        assert(queue_view(queue) =~= Seq::empty());
        self.queues.insert(token, queue);
        proof {
            assert(self@.queues =~= old(self)@.queues.insert(token, Seq::empty()));
            assert forall|id: u64| #[trigger] self@.routes.contains_key(id) implies self@.routes[id]
                < self@.next_token by {
                if id != association_id {
                    assert(old(self)@.routes.contains_key(id));
                }
            }
            assert forall|t: u64| #[trigger] self@.queues.contains_key(t) implies t
                < self@.next_token && self@.queues[t].len()
                <= QOMT_DATAGRAM_ASSOCIATION_QUEUE_CAPACITY by {
                if t != token {
                    assert(old(self)@.queues.contains_key(t));
                }
            }
            assert forall|a: u64, b: u64| #[trigger]
                self@.routes.contains_key(a) && #[trigger] self@.routes.contains_key(b)
                    && self@.routes[a] == self@.routes[b] implies a == b by {
                if a != association_id {
                    assert(old(self)@.routes.contains_key(a));
                }
                if b != association_id {
                    assert(old(self)@.routes.contains_key(b));
                }
            }
        }
        Ok(QomtDatagramRegistration { association_id, token })
    }

    /// Gives a registration up. A later registration of the same association stays.
    pub fn unregister(&mut self, registration: QomtDatagramRegistration)
        requires
            old(self)@.valid(),
        ensures
            final(self)@.valid(),
            final(self)@ == old(self)@.unregistered(registration),
    {
        let current = match self.routes.get(&registration.association_id) {
            Some(token) => *token == registration.token,
            None => false,
        };
        if current {
            self.routes.remove(&registration.association_id);
        }
        proof {
            assert forall|id: u64| #[trigger] self@.routes.contains_key(id) implies
                old(self)@.routes.contains_key(id) && self@.routes[id] == old(self)@.routes[id] by {}
        }
    }

    /// The receiver of a registration stops listening. What waited for it is lost.
    pub fn close_receiver(&mut self, registration: QomtDatagramRegistration)
        requires
            old(self)@.valid(),
        ensures
            final(self)@.valid(),
            final(self)@ == (RouterModel {
                queues: old(self)@.queues.remove(registration.token),
                ..old(self)@
            }),
    {
        self.queues.remove(&registration.token);
        proof {
            assert(self@.queues =~= old(self)@.queues.remove(registration.token));
            assert forall|t: u64| #[trigger] self@.queues.contains_key(t) implies
                old(self)@.queues.contains_key(t) && self@.queues[t] == old(self)@.queues[t] by {}
        }
    }

    /// The next datagram for a registration.
    pub fn try_receive(&mut self, registration: QomtDatagramRegistration) -> (result: TryReceive)
        requires
            old(self)@.valid(),
        ensures
            final(self)@.valid(),
            ({
                let queues = old(self)@.queues;
                let token = registration.token;
                if queues.contains_key(token) && queues[token].len() > 0 {
                    &&& result matches TryReceive::Datagram(datagram)
                    &&& datagram@ == queues[token][0]
                    &&& final(self)@ == (RouterModel {
                        queues: queues.insert(token, queues[token].skip(1)),
                        ..old(self)@
                    })
                } else {
                    &&& final(self)@ == old(self)@
                    &&& result == if old(self)@.routes.contains_key(registration.association_id)
                        && old(self)@.routes[registration.association_id] == token {
                        TryReceive::Empty
                    } else {
                        TryReceive::Disconnected
                    }
                }
            }),
    {
        let registered = match self.routes.get(&registration.association_id) {
            Some(token) => *token == registration.token,
            None => false,
        };
        let nothing = if registered {
            TryReceive::Empty
        } else {
            TryReceive::Disconnected
        };
        match self.queues.remove(&registration.token) {
            None => {
                assert(self@ =~= old(self)@);
                nothing
            },
            Some(mut queue) => {
                let ghost before = queue_view(queue);
                let taken = queue.pop_front();
                proof {
                    if before.len() > 0 {
                        assert(queue_view(queue) =~= before.skip(1));
                    }
                }
                self.queues.insert(registration.token, queue);
                proof {
                    if before.len() > 0 {
                        assert(self@.queues =~= old(self)@.queues.insert(
                            registration.token,
                            before.skip(1),
                        ));
                    } else {
                        assert(self@.queues =~= old(self)@.queues);
                    }
                    assert forall|t: u64| #[trigger] self@.queues.contains_key(t) implies
                        old(self)@.queues.contains_key(t) && self@.queues[t].len()
                        <= old(self)@.queues[t].len() by {}
                }
                match taken {
                    Some(datagram) => TryReceive::Datagram(datagram),
                    None => nothing,
                }
            },
        }
    }

    /// The number of datagrams that wait for a registration.
    pub fn waiting_count(&self, registration: QomtDatagramRegistration) -> (count: usize)
        ensures
            count == if self@.queues.contains_key(registration.token) {
                self@.queues[registration.token].len()
            } else {
                0
            },
    {
        match self.queues.get(&registration.token) {
            Some(queue) => queue.len(),
            None => 0,
        }
    }

    /// A transport takes over. Returns its generation.
    pub fn activate(&mut self) -> (generation: u64)
        requires
            old(self)@.valid(),
        ensures
            final(self)@.valid(),
            generation == old(self)@.next_generation,
            final(self)@ == (RouterModel {
                active: Some(generation),
                next_generation: bumped(generation),
                ..old(self)@
            }),
    {
        let generation: u64 = self.next_socket_generation;
        self.next_socket_generation = bump(generation);
        self.active = Some(generation);
        generation
    }

    /// A transport ended. One that took over meanwhile stays.
    pub fn finish(&mut self, generation: u64)
        requires
            old(self)@.valid(),
        ensures
            final(self)@.valid(),
            final(self)@ == (RouterModel {
                active: if old(self)@.active == Some(generation) {
                    None
                } else {
                    old(self)@.active
                },
                ..old(self)@
            }),
    {
        if let Some(active) = self.active {
            if active == generation {
                self.active = None;
            }
        }
    }

    /// No transport is in use.
    pub fn deactivate(&mut self)
        requires
            old(self)@.valid(),
        ensures
            final(self)@.valid(),
            final(self)@ == (RouterModel { active: None, ..old(self)@ }),
    {
        self.active = None;
    }

    /// The longest payload that can be sent, `max_writable` being what the transport in use takes.
    pub fn max_payload_len(&self, max_writable: Option<usize>) -> (length: Option<usize>)
        ensures
            length == match max_writable {
                Some(length) => if self@.active is Some && length >= QOMT_DATAGRAM_ENVELOPE_SIZE {
                    Some((length - QOMT_DATAGRAM_ENVELOPE_SIZE) as usize)
                } else {
                    None
                },
                None => None,
            },
    {
        if self.active.is_none() {
            return None;
        }
        match max_writable {
            Some(length) => if length >= QOMT_DATAGRAM_ENVELOPE_SIZE {
                Some(length - QOMT_DATAGRAM_ENVELOPE_SIZE)
            } else {
                None
            },
            None => None,
        }
    }

    /// Puts a payload into its envelope, where the transport in use takes one that long.
    pub fn prepare_send(&self, association_id: u64, payload: &[u8], max_writable: Option<usize>)
        -> (prepared: PreparedDatagram)
        ensures
            match max_writable {
                Some(length) => if self@.active is Some && length >= QOMT_DATAGRAM_ENVELOPE_SIZE {
                    if payload@.len() <= length - QOMT_DATAGRAM_ENVELOPE_SIZE {
                        prepared matches PreparedDatagram::Send(datagram) && datagram@ == envelope(
                            association_id,
                            payload@,
                        )
                    } else {
                        prepared == PreparedDatagram::TooLarge
                    }
                } else {
                    prepared == PreparedDatagram::Unavailable
                },
                None => prepared == PreparedDatagram::Unavailable,
            },
    {
        let max_payload_len: usize = match self.max_payload_len(max_writable) {
            Some(length) => length,
            None => return PreparedDatagram::Unavailable,
        };
        if payload.len() > max_payload_len {
            return PreparedDatagram::TooLarge;
        }
        let mut datagram: Vec<u8> = vec![
            QOMT_DATAGRAM_WIRE_VERSION,
            (association_id / 0x100_0000_0000_0000) as u8,
            (association_id / 0x1_0000_0000_0000 % 256) as u8,
            (association_id / 0x100_0000_0000 % 256) as u8,
            (association_id / 0x1_0000_0000 % 256) as u8,
            (association_id / 0x100_0000 % 256) as u8,
            (association_id / 0x1_0000 % 256) as u8,
            (association_id / 0x100 % 256) as u8,
            (association_id % 256) as u8,
        ];
        datagram.extend_from_slice(payload);
        assert(datagram@ =~= envelope(association_id, payload@));
        PreparedDatagram::Send(datagram)
    }

    /// Takes in what the transport did with a prepared datagram.
    pub fn on_sent(&mut self, result: Result<(), QuicDatagramSendError>) -> (outcome:
        QomtDatagramSendOutcome)
        requires
            old(self)@.valid(),
        ensures
            final(self)@.valid(),
            outcome == match result {
                Ok(_) => QomtDatagramSendOutcome::Queued,
                Err(QuicDatagramSendError::Unavailable) => QomtDatagramSendOutcome::Unavailable,
                Err(QuicDatagramSendError::TooLarge { .. }) => QomtDatagramSendOutcome::TooLarge,
                Err(QuicDatagramSendError::QueueFull) => QomtDatagramSendOutcome::QueueFull,
                Err(error) => QomtDatagramSendOutcome::Failed(error),
            },
            final(self)@ == (RouterModel {
                stats: QomtDatagramStats {
                    sent: if outcome == QomtDatagramSendOutcome::Queued {
                        bumped(old(self)@.stats.sent)
                    } else {
                        old(self)@.stats.sent
                    },
                    dropped_send_queue_full: if outcome == QomtDatagramSendOutcome::QueueFull {
                        bumped(old(self)@.stats.dropped_send_queue_full)
                    } else {
                        old(self)@.stats.dropped_send_queue_full
                    },
                    ..old(self)@.stats
                },
                ..old(self)@
            }),
    {
        match result {
            Ok(_) => {
                self.stats.sent = bump(self.stats.sent);
                QomtDatagramSendOutcome::Queued
            },
            Err(QuicDatagramSendError::Unavailable) => QomtDatagramSendOutcome::Unavailable,
            Err(QuicDatagramSendError::TooLarge { .. }) => QomtDatagramSendOutcome::TooLarge,
            Err(QuicDatagramSendError::QueueFull) => {
                self.stats.dropped_send_queue_full = bump(self.stats.dropped_send_queue_full);
                QomtDatagramSendOutcome::QueueFull
            },
            Err(error) => QomtDatagramSendOutcome::Failed(error),
        }
    }

    pub fn stats(&self) -> (stats: QomtDatagramStats)
        ensures
            stats == self@.stats,
    {
        self.stats
    }

    pub fn route_count(&self) -> (count: usize)
        ensures
            count == self@.routes.len(),
    {
        self.routes.len()
    }

    /// Hands a received datagram on to the association it names, or drops it.
    pub fn dispatch(&mut self, datagram: Vec<u8>)
        requires
            old(self)@.valid(),
        ensures
            final(self)@.valid(),
            final(self)@ == old(self)@.dispatched(datagram@),
    {
        if datagram.len() < QOMT_DATAGRAM_ENVELOPE_SIZE || datagram[0]
            != QOMT_DATAGRAM_WIRE_VERSION {
            self.stats.dropped_malformed = bump(self.stats.dropped_malformed);
            return;
        }
        let association_id: u64 = datagram[1] as u64 * 0x100_0000_0000_0000 + datagram[2] as u64
            * 0x1_0000_0000_0000 + datagram[3] as u64 * 0x100_0000_0000 + datagram[4] as u64
            * 0x1_0000_0000 + datagram[5] as u64 * 0x100_0000 + datagram[6] as u64 * 0x1_0000
            + datagram[7] as u64 * 0x100 + datagram[8] as u64;
        assert(association_id == addressee(datagram@)) by {
            assert forall|i: int| 0 <= i < 8 implies datagram@.skip(1)[i] == datagram@[i + 1] by {}
        }
        let token: u64 = match self.routes.get(&association_id) {
            Some(token) => *token,
            None => {
                self.stats.dropped_unknown_association = bump(
                    self.stats.dropped_unknown_association,
                );
                return;
            },
        };
        match self.queues.remove(&token) {
            None => {
                self.routes.remove(&association_id);
                proof {
                    assert(self@.queues =~= old(self)@.queues);
                    assert forall|id: u64| #[trigger] self@.routes.contains_key(id) implies
                        old(self)@.routes.contains_key(id) && self@.routes[id]
                        == old(self)@.routes[id] by {}
                }
            },
            Some(mut queue) => {
                let ghost before = queue_view(queue);
                if queue.len() >= QOMT_DATAGRAM_ASSOCIATION_QUEUE_CAPACITY {
                    self.queues.insert(token, queue);
                    self.stats.dropped_receive_queue_full = bump(
                        self.stats.dropped_receive_queue_full,
                    );
                    proof {
                        assert(self@.queues =~= old(self)@.queues);
                    }
                } else {
                    let payload: Vec<u8> = vstd::slice::slice_to_vec(
                        vstd::slice::slice_subrange(
                            datagram.as_slice(),
                            QOMT_DATAGRAM_ENVELOPE_SIZE,
                            datagram.len(),
                        ),
                    );
                    assert(payload@ =~= payload_of(datagram@));
                    queue.push_back(payload);
                    assert(queue_view(queue) =~= before.push(payload_of(datagram@)));
                    self.queues.insert(token, queue);
                    self.stats.received = bump(self.stats.received);
                    proof {
                        assert(self@.queues =~= old(self)@.queues.insert(
                            token,
                            before.push(payload_of(datagram@)),
                        ));
                        assert forall|t: u64| #[trigger] self@.queues.contains_key(t) implies t
                            < self@.next_token && self@.queues[t].len()
                            <= QOMT_DATAGRAM_ASSOCIATION_QUEUE_CAPACITY by {
                            assert(old(self)@.queues.contains_key(t));
                        }
                    }
                }
            },
        }
    }
}

/// What is enveloped in one router is delivered by another to the association of the same id, as
/// it was sent, behind what waits there.
pub proof fn law_datagrams_go_to_their_association(
    sender: QomtDatagramRouter,
    id: u64,
    payload: &[u8],
    max_writable: Option<usize>,
    prepared: PreparedDatagram,
    receiver: &mut QomtDatagramRouter,
    datagram: Vec<u8>,
)
    requires
        call_ensures(
            QomtDatagramRouter::prepare_send,
            (&sender, id, payload, max_writable),
            prepared,
        ),
        prepared matches PreparedDatagram::Send(bytes) && bytes@ == datagram@,
        old(receiver)@.valid(),
        old(receiver)@.listens(id),
        old(receiver)@.waiting(id).len() < 32,
        call_ensures(QomtDatagramRouter::dispatch, (receiver, datagram), ()),
    ensures
        final(receiver)@.waiting(id) == old(receiver)@.waiting(id).push(payload@),
        final(receiver)@.routes == old(receiver)@.routes,
        old(receiver)@.stats.received < u64::MAX ==> final(receiver)@.stats.received
            == old(receiver)@.stats.received + 1,
{
    law_enveloped_payload_is_delivered(old(receiver)@, id, payload@);
}

/// A datagram is sent exactly where the bypass is up and the payload fits with the nine bytes of
/// its envelope; what a caller is told fits is what is sent.
pub proof fn law_sent_datagrams_fit(
    router: QomtDatagramRouter,
    id: u64,
    payload: &[u8],
    max_writable: Option<usize>,
    prepared: PreparedDatagram,
    length: Option<usize>,
)
    requires
        call_ensures(
            QomtDatagramRouter::prepare_send,
            (&router, id, payload, max_writable),
            prepared,
        ),
        call_ensures(QomtDatagramRouter::max_payload_len, (&router, max_writable), length),
    ensures
        prepared is Send <==> length is Some && payload@.len() <= length->Some_0,
        prepared is TooLarge <==> length is Some && payload@.len() > length->Some_0,
        prepared is Unavailable <==> length is None,
        prepared matches PreparedDatagram::Send(bytes) ==> bytes@.len() == payload@.len() + 9
            && bytes@.len() <= max_writable->Some_0,
        length is Some <==> router@.active is Some && max_writable is Some
            && max_writable->Some_0 >= 9,
        length is Some ==> length->Some_0 + 9 == max_writable->Some_0,
{
}

/// Datagrams that are malformed, of an unknown association or for a full queue are dropped, each
/// counted as what it is, and nothing that waits is touched.
pub proof fn law_dropped_datagrams_are_counted(
    router: &mut QomtDatagramRouter,
    datagram: Vec<u8>,
)
    requires
        old(router)@.valid(),
        call_ensures(QomtDatagramRouter::dispatch, (router, datagram), ()),
    ensures
        ({
            let before = old(router)@;
            let after = final(router)@;
            let id = addressee(datagram@);
            let malformed = datagram@.len() < 9 || datagram@[0] != 1;
            &&& malformed && before.stats.dropped_malformed < u64::MAX ==> after.queues
                == before.queues && after.stats.dropped_malformed
                == before.stats.dropped_malformed + 1
            &&& !malformed && !before.routes.contains_key(id)
                && before.stats.dropped_unknown_association < u64::MAX ==> after.queues
                == before.queues && after.stats.dropped_unknown_association
                == before.stats.dropped_unknown_association + 1
            &&& !malformed && before.listens(id) && before.waiting(id).len() == 32
                && before.stats.dropped_receive_queue_full < u64::MAX ==> after.queues
                == before.queues && after.stats.dropped_receive_queue_full
                == before.stats.dropped_receive_queue_full + 1
            &&& (malformed || !before.listens(id)) ==> after.stats.received
                == before.stats.received
        }),
{
}

/// A new association starts with an empty queue of its own, leaves the others as they were, and is
/// refused exactly where its id is in use or 4096 are registered.
pub proof fn law_registrations_are_unique(
    router: &mut QomtDatagramRouter,
    id: u64,
    result: Result<QomtDatagramRegistration, RegistrationError>,
    other: u64,
)
    requires
        old(router)@.valid(),
        old(router)@.next_token < u64::MAX,
        call_ensures(QomtDatagramRouter::register, (router, id), result),
    ensures
        result is Ok <==> !old(router)@.routes.contains_key(id) && old(router)@.routes.len()
            < 4096,
        result is Ok ==> final(router)@.listens(id) && final(router)@.waiting(id).len() == 0,
        result == Err::<QomtDatagramRegistration, _>(RegistrationError::AlreadyExists)
            <==> old(router)@.routes.contains_key(id),
        result is Ok && other != id && old(router)@.listens(other) ==> final(router)@.listens(other)
            && final(router)@.waiting(other) == old(router)@.waiting(other),
{
    if result is Ok && other != id && old(router)@.listens(other) {
        assert(old(router)@.routes.contains_key(other));
        assert(old(router)@.routes[other] < old(router)@.next_token);
    }
}

/// Giving a registration up ends its association, but not one that was registered anew under the
/// same id.
pub proof fn law_old_registrations_do_not_end_new_ones(
    router: &mut QomtDatagramRouter,
    registration: QomtDatagramRegistration,
    other: u64,
)
    requires
        old(router)@.valid(),
        call_ensures(QomtDatagramRouter::unregister, (router, registration), ()),
    ensures
        ({
            let id = registration.association_id;
            let routes = old(router)@.routes;
            &&& routes.contains_key(id) && routes[id] == registration.token ==> !final(router)@.routes.contains_key(id)
            &&& routes.contains_key(id) && routes[id] != registration.token ==> final(router)@.routes.contains_key(id) && final(router)@.routes[id] == routes[id]
            &&& other != id && routes.contains_key(other) ==> final(router)@.routes.contains_key(
                other,
            ) && final(router)@.routes[other] == routes[other]
        }),
{
}

/// The bypass is up from its activation until that activation is finished; finishing an older one
/// does not end it.
pub proof fn law_only_the_current_bypass_can_finish(
    activated: &mut QomtDatagramRouter,
    generation: u64,
    finished: &mut QomtDatagramRouter,
    other: u64,
)
    requires
        old(activated)@.valid(),
        call_ensures(QomtDatagramRouter::activate, (activated,), generation),
        old(finished)@ == final(activated)@,
        call_ensures(QomtDatagramRouter::finish, (finished, other), ()),
    ensures
        final(activated)@.active == Some(generation),
        final(finished)@.active is None <==> other == generation,
        other != generation ==> final(finished)@.active == Some(generation),
        final(finished)@.routes == old(activated)@.routes,
{
}

/// Datagrams are received in the order in which they came, each once. While none waits, a
/// registered association is told so and one that was given up is told that it is over.
pub proof fn law_datagrams_are_received_in_order(
    router: &mut QomtDatagramRouter,
    registration: QomtDatagramRegistration,
    received: TryReceive,
)
    requires
        old(router)@.valid(),
        old(router)@.queues.contains_key(registration.token),
        call_ensures(QomtDatagramRouter::try_receive, (router, registration), received),
    ensures
        ({
            let waiting = old(router)@.queues[registration.token];
            let left = final(router)@.queues[registration.token];
            &&& received matches TryReceive::Datagram(datagram) ==> waiting == seq![datagram@]
                + left
            &&& received is Datagram <==> waiting.len() > 0
            &&& received is Empty <==> waiting.len() == 0 && old(router)@.routes.contains_key(
                registration.association_id,
            ) && old(router)@.routes[registration.association_id] == registration.token
            &&& received !is Datagram ==> left == waiting
        }),
{
    let waiting = old(router)@.queues[registration.token];
    if waiting.len() > 0 {
        assert(waiting =~= seq![waiting[0]] + waiting.skip(1));
    }
}

/// What a send attempt gave is reported as it is; a sent datagram and one that the queue had no
/// room for are counted.
pub proof fn law_send_results_are_reported(
    router: &mut QomtDatagramRouter,
    result: Result<(), QuicDatagramSendError>,
    outcome: QomtDatagramSendOutcome,
)
    requires
        old(router)@.valid(),
        call_ensures(QomtDatagramRouter::on_sent, (router, result), outcome),
    ensures
        outcome is Queued <==> result is Ok,
        outcome is QueueFull <==> result matches Err(QuicDatagramSendError::QueueFull),
        outcome is Unavailable <==> result matches Err(QuicDatagramSendError::Unavailable),
        outcome is TooLarge <==> result matches Err(QuicDatagramSendError::TooLarge { .. }),
        old(router)@.stats.sent < u64::MAX ==> final(router)@.stats.sent
            == old(router)@.stats.sent + (if result is Ok {
            1int
        } else {
            0int
        }),
        outcome is QueueFull && old(router)@.stats.dropped_send_queue_full < u64::MAX ==> final(
            router)@.stats.dropped_send_queue_full == old(router)@.stats.dropped_send_queue_full + 1,
{
}

/// A new router has no bypass and no associations, and has counted nothing.
pub proof fn law_new_routers_have_no_associations(router: QomtDatagramRouter)
    requires
        call_ensures(QomtDatagramRouter::new, (), router),
    ensures
        router@.active is None,
        router@.routes.len() == 0 && router@.queues.len() == 0,
        router@.stats.sent == 0 && router@.stats.received == 0,
        router@.stats.dropped_send_queue_full == 0 && router@.stats.dropped_receive_queue_full == 0,
        router@.stats.dropped_unknown_association == 0 && router@.stats.dropped_malformed == 0,
{
}

} // verus!
