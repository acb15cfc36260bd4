//! The owner of a main connection and its UDP bypass: path choice, reconnection and state.

use vstd::prelude::*;
use vstd::string::*;

use super::datagram_router::QomtDatagramStats;
use crate::quic_connection::diagnostics::CONNECTION_ID_LENGTH;
use crate::quic_connection::underlay::QuicPathMetrics;
use crate::quic_connection::State;
use crate::text::{decimal_text, number_text};
use crate::time::TimeSpan;

verus! {

pub const MAX_PENDING_QOMT_HANDSHAKES: usize = 64;

/// How long the handshake of the bypass may take. The bypass must not hold the main connection
/// up.
pub const QOMT_UDP_HANDSHAKE_TIMEOUT_NANOS: u128 = 2_000_000_000;

pub const QOMT_UDP_KEEPALIVE_INTERVAL_NANOS: u128 = 5_000_000_000;

pub const QOMT_UDP_RECONNECT_INITIAL_DELAY_NANOS: u128 = 1_000_000_000;

pub const QOMT_UDP_RECONNECT_MAX_DELAY_NANOS: u128 = 30_000_000_000;

/// The least inflation of the main round trip from which the bypass is considered.
pub const RTT_INFLATION_MINIMUM_NANOS: u128 = 10_000_000;

/// The inflation must also be this fraction of the best round trip seen.
pub const RTT_INFLATION_BASELINE_DIVISOR: u128 = 2;

/// The bypass must be faster than the main connection by more than this.
pub const UDP_RTT_ADVANTAGE_MINIMUM_NANOS: u128 = 5_000_000;

/// The packets that a new bypass may send before its first valid one.
pub const QOMT_MAX_REJECTED_UDP_INITIAL_PACKETS: usize = 64;

/// When the bypass is kept alive and how it is built up again.
#[derive(Clone, Copy, Debug, PartialEq, Eq, Structural)]
pub struct QomtUdpReconnectPolicy {
    pub keepalive_interval: TimeSpan,
    pub reconnect_initial_delay: TimeSpan,
    pub reconnect_max_delay: TimeSpan,
}

impl QomtUdpReconnectPolicy {
    /// The policy that holds where no other is given.
    pub open spec fn standard() -> QomtUdpReconnectPolicy {
        QomtUdpReconnectPolicy {
            keepalive_interval: TimeSpan { nanos: QOMT_UDP_KEEPALIVE_INTERVAL_NANOS },
            reconnect_initial_delay: TimeSpan { nanos: QOMT_UDP_RECONNECT_INITIAL_DELAY_NANOS },
            reconnect_max_delay: TimeSpan { nanos: QOMT_UDP_RECONNECT_MAX_DELAY_NANOS },
        }
    }
}

impl Default for QomtUdpReconnectPolicy {
    fn default() -> (policy: Self)
        ensures
            policy == QomtUdpReconnectPolicy::standard(),
            policy.keepalive_interval.nanos == QOMT_UDP_KEEPALIVE_INTERVAL_NANOS,
            policy.reconnect_initial_delay.nanos == QOMT_UDP_RECONNECT_INITIAL_DELAY_NANOS,
            policy.reconnect_max_delay.nanos == QOMT_UDP_RECONNECT_MAX_DELAY_NANOS,
    {
        QomtUdpReconnectPolicy {
            keepalive_interval: TimeSpan { nanos: QOMT_UDP_KEEPALIVE_INTERVAL_NANOS },
            reconnect_initial_delay: TimeSpan { nanos: QOMT_UDP_RECONNECT_INITIAL_DELAY_NANOS },
            reconnect_max_delay: TimeSpan { nanos: QOMT_UDP_RECONNECT_MAX_DELAY_NANOS },
        }
    }
}

/// The state of the bypass as its users see it.
#[derive(Clone, Copy, Debug, PartialEq, Eq, Structural)]
pub enum QomtUdpState {
    Disabled,
    Connecting,
    Established,
    Reconnecting,
    Closed,
}

/// The main round trip is inflated beyond the threshold and the bypass is faster by more than
/// the required advantage. One fixed threshold decides, whichever path was used before.
pub open spec fn prefers_udp(main: QuicPathMetrics, udp: QuicPathMetrics) -> bool {
    match main.min_rtt {
        None => false,
        Some(baseline) => {
            let inflation = if main.rtt.nanos >= baseline.nanos {
                main.rtt.nanos - baseline.nanos
            } else {
                0
            };
            &&& inflation >= RTT_INFLATION_MINIMUM_NANOS
            &&& inflation >= baseline.nanos / RTT_INFLATION_BASELINE_DIVISOR
            &&& udp.rtt.nanos + UDP_RTT_ADVANTAGE_MINIMUM_NANOS < main.rtt.nanos
        },
    }
}

/// Whether the round trips speak for the bypass.
pub fn path_metrics_prefer_udp(main: QuicPathMetrics, udp: QuicPathMetrics) -> (result: bool)
    ensures
        result == prefers_udp(main, udp),
{
    let baseline: u128 = match main.min_rtt {
        Some(baseline) => baseline.nanos,
        None => return false,
    };
    let inflation: u128 = if main.rtt.nanos >= baseline {
        main.rtt.nanos - baseline
    } else {
        0
    };
    inflation >= RTT_INFLATION_MINIMUM_NANOS && inflation >= baseline
        / RTT_INFLATION_BASELINE_DIVISOR && main.rtt.nanos > UDP_RTT_ADVANTAGE_MINIMUM_NANOS
        && udp.rtt.nanos < main.rtt.nanos - UDP_RTT_ADVANTAGE_MINIMUM_NANOS
}

/// What is known of the two paths at a moment.
#[derive(Clone, Copy, Debug, PartialEq, Eq, Structural)]
pub struct PathSample {
    pub main: Option<QuicPathMetrics>,
    pub udp: Option<QuicPathMetrics>,
}

impl PathSample {
    /// The bypass is preferred, and each path has measurements.
    pub open spec fn prefers_udp(self) -> bool {
        match (self.main, self.udp) {
            (Some(main), Some(udp)) => prefers_udp(main, udp),
            _ => false,
        }
    }

    /// Whether the bypass is preferred, where each path has measurements.
    pub fn rtt_prefers_udp(&self) -> (result: bool)
        ensures
            result == self.prefers_udp(),
    {
        match (self.main, self.udp) {
            (Some(main), Some(udp)) => path_metrics_prefer_udp(main, udp),
            _ => false,
        }
    }
}

/// A bypass that is not faster than the main connection is never preferred.
pub proof fn law_slower_bypass_is_never_preferred(main: QuicPathMetrics, udp: QuicPathMetrics)
    requires
        udp.rtt.nanos >= main.rtt.nanos,
    ensures
        !prefers_udp(main, udp),
{
}

/// The bypass is preferred exactly where the best main round trip is known, the main round trip
/// exceeds it by ten milliseconds and by half of it, and the bypass is more than five milliseconds
/// faster.
pub proof fn law_inflated_main_prefers_the_bypass(
    main: QuicPathMetrics,
    udp: QuicPathMetrics,
    baseline: TimeSpan,
)
    requires
        main.min_rtt == Some(baseline),
    ensures
        main.rtt.nanos >= baseline.nanos + 10_000_000 && main.rtt.nanos >= baseline.nanos
            + baseline.nanos / 2 && udp.rtt.nanos + 5_000_000 < main.rtt.nanos ==> prefers_udp(
            main,
            udp,
        ),
        prefers_udp(main, udp) ==> main.rtt.nanos >= baseline.nanos + 10_000_000 && main.rtt.nanos
            >= baseline.nanos + baseline.nanos / 2 && udp.rtt.nanos + 5_000_000 < main.rtt.nanos,
        (PathSample { main: Some(main), udp: Some(udp) }).prefers_udp() == prefers_udp(main, udp),
{
}

/// Where the bypass is preferred, it stays preferred when the main round trip grows or that of the
/// bypass shrinks, with the best main round trip as it was.
pub proof fn law_preference_is_monotone(
    main: QuicPathMetrics,
    udp: QuicPathMetrics,
    slower_main: QuicPathMetrics,
    faster_udp: QuicPathMetrics,
)
    requires
        prefers_udp(main, udp),
        slower_main.min_rtt == main.min_rtt,
        slower_main.rtt.nanos >= main.rtt.nanos,
        faster_udp.rtt.nanos <= udp.rtt.nanos,
    ensures
        prefers_udp(slower_main, faster_udp),
{
}

/// Without measurements of both paths, or without a best main round trip, the bypass is not
/// preferred.
pub proof fn law_unknown_round_trips_prefer_the_main_connection(sample: PathSample)
    ensures
        sample.main is None || sample.udp is None || sample.main->Some_0.min_rtt is None
            ==> !sample.prefers_udp(),
{
}

/// A fifth of the delay, in whole milliseconds.
pub open spec fn jitter(delay: int) -> int {
    let millis = delay / 1_000_000 / 5;
    if millis <= u64::MAX {
        millis * 1_000_000
    } else {
        u64::MAX * 1_000_000
    }
}

/// The shortest delay after jitter.
pub open spec fn jittered_minimum(delay: int) -> int {
    delay - jitter(delay)
}

/// The longest delay after jitter.
pub open spec fn jittered_maximum(delay: int, maximum: int) -> int {
    if delay + jitter(delay) <= maximum {
        delay + jitter(delay)
    } else {
        maximum
    }
}

/// `rand::Rng::random_range` on the thread's generator, for an inclusive range that is not empty:
/// any number of the range may come back.
#[verifier::external_body]
fn random_between(minimum: u128, maximum: u128) -> (number: u128)
    requires
        minimum <= maximum,
    ensures
        minimum <= number <= maximum,
{
    rand::Rng::random_range(&mut rand::rng(), minimum..=maximum)
}

/// The delay before the next attempt: near `delay`, and at most `maximum`.
pub fn reconnect_delay_with_jitter(delay: TimeSpan, maximum: TimeSpan) -> (result: TimeSpan)
    ensures
        result.nanos <= maximum.nanos,
        if jittered_minimum(delay.nanos as int) >= jittered_maximum(
            delay.nanos as int,
            maximum.nanos as int,
        ) {
            result.nanos == jittered_maximum(delay.nanos as int, maximum.nanos as int)
        } else {
            jittered_minimum(delay.nanos as int) <= result.nanos <= jittered_maximum(
                delay.nanos as int,
                maximum.nanos as int,
            )
        },
{
    let millis: u128 = delay.nanos / 1_000_000 / 5;
    let spread: u128 = if millis <= u64::MAX as u128 {
        millis * 1_000_000
    } else {
        u64::MAX as u128 * 1_000_000
    };
    assert(spread == jitter(delay.nanos as int));
    assert(spread <= delay.nanos);
    let shortest: u128 = delay.nanos - spread;
    let longest: u128 = if delay.nanos <= maximum.nanos && spread <= maximum.nanos - delay.nanos {
        delay.nanos + spread
    } else {
        maximum.nanos
    };
    if shortest >= longest {
        return TimeSpan { nanos: longest };
    }
    TimeSpan { nanos: random_between(shortest, longest) }
}

/// The delay that follows `delay` in the back-off: twice as long, up to the maximum.
pub open spec fn backed_off(delay: int, maximum: int) -> int {
    if delay * 2 <= maximum {
        delay * 2
    } else {
        maximum
    }
}

/// The mathematical form of a `UdpSupervisor`.
pub struct SupervisorModel {
    pub state: QomtUdpState,
    pub generation: u64,
    pub retry_delay: int,
    pub policy: QomtUdpReconnectPolicy,
}

/// Builds the bypass up again and again, with a growing delay between the attempts.
pub struct UdpSupervisor {
    state: QomtUdpState,
    generation: u64,
    retry_delay: TimeSpan,
    policy: QomtUdpReconnectPolicy,
}

impl View for UdpSupervisor {
    type V = SupervisorModel;

    closed spec fn view(&self) -> SupervisorModel {
        SupervisorModel {
            state: self.state,
            generation: self.generation,
            retry_delay: self.retry_delay.nanos as int,
            policy: self.policy,
        }
    }
}

impl UdpSupervisor {
    /// The bypass of a connection that has one.
    pub fn new(policy: QomtUdpReconnectPolicy) -> (supervisor: Self)
        ensures
            supervisor@ == (SupervisorModel {
                state: QomtUdpState::Connecting,
                generation: 0,
                retry_delay: policy.reconnect_initial_delay.nanos as int,
                policy,
            }),
    {
        UdpSupervisor {
            state: QomtUdpState::Connecting,
            generation: 0,
            retry_delay: policy.reconnect_initial_delay,
            policy,
        }
    }

    /// The bypass of a connection that has none: nothing was attempted, and the standard policy
    /// is held.
    pub fn disabled() -> (supervisor: Self)
        ensures
            supervisor@ == (SupervisorModel {
                state: QomtUdpState::Disabled,
                generation: 0,
                retry_delay: QOMT_UDP_RECONNECT_INITIAL_DELAY_NANOS as int,
                policy: QomtUdpReconnectPolicy::standard(),
            }),
    {
        let policy = QomtUdpReconnectPolicy::default();
        UdpSupervisor {
            state: QomtUdpState::Disabled,
            generation: 0,
            retry_delay: policy.reconnect_initial_delay,
            policy,
        }
    }

    pub fn generation(&self) -> (generation: u64)
        ensures
            generation == self@.generation,
    {
        self.generation
    }

    /// An attempt begins.
    pub fn begin_attempt(&mut self)
        ensures
            final(self)@ == (SupervisorModel {
                state: if old(self)@.generation == 0 {
                    QomtUdpState::Connecting
                } else {
                    QomtUdpState::Reconnecting
                },
                ..old(self)@
            }),
    {
        self.state = if self.generation == 0 {
            QomtUdpState::Connecting
        } else {
            QomtUdpState::Reconnecting
        };
    }

    /// The attempt failed.
    pub fn attempt_failed(&mut self)
        ensures
            final(self)@ == (SupervisorModel { state: QomtUdpState::Reconnecting, ..old(self)@ }),
    {
        self.state = QomtUdpState::Reconnecting;
    }

    /// The bypass is up.
    pub fn established(&mut self)
        ensures
            final(self)@ == (SupervisorModel {
                state: QomtUdpState::Established,
                generation: if old(self)@.generation == u64::MAX {
                    u64::MAX
                } else {
                    (old(self)@.generation + 1) as u64
                },
                ..old(self)@
            }),
    {
        if self.generation < u64::MAX {
            self.generation = self.generation + 1;
        }
        self.state = QomtUdpState::Established;
    }

    /// The bypass went down after `lifetime`. Only one that lasted for the longest delay starts
    /// the back-off over: a handshake alone proves no recovery.
    pub fn generation_ended(&mut self, lifetime: TimeSpan)
        ensures
            final(self)@ == (SupervisorModel {
                state: QomtUdpState::Reconnecting,
                retry_delay: if lifetime.nanos >= old(self)@.policy.reconnect_max_delay.nanos {
                    old(self)@.policy.reconnect_initial_delay.nanos as int
                } else {
                    old(self)@.retry_delay
                },
                ..old(self)@
            }),
    {
        self.state = QomtUdpState::Reconnecting;
        if lifetime.nanos >= self.policy.reconnect_max_delay.nanos {
            self.retry_delay = self.policy.reconnect_initial_delay;
        }
    }

    /// The delay before the next attempt, without jitter. The one after it is longer.
    pub fn next_delay(&mut self) -> (delay: TimeSpan)
        ensures
            delay.nanos == old(self)@.retry_delay,
            final(self)@ == (SupervisorModel {
                retry_delay: backed_off(
                    old(self)@.retry_delay,
                    old(self)@.policy.reconnect_max_delay.nanos as int,
                ),
                ..old(self)@
            }),
    {
        let delay = self.retry_delay;
        let maximum: u128 = self.policy.reconnect_max_delay.nanos;
        let next: u128 = if delay.nanos <= maximum && delay.nanos <= maximum - delay.nanos {
            delay.nanos * 2
        } else {
            maximum
        };
        self.retry_delay = TimeSpan { nanos: next };
        delay
    }

    /// The main connection is over, and the bypass with it.
    pub fn close(&mut self)
        ensures
            final(self)@ == (SupervisorModel { state: QomtUdpState::Closed, ..old(self)@ }),
    {
        self.state = QomtUdpState::Closed;
    }

    /// The state of the bypass, `connection` being that of its current QUIC connection.
    pub fn udp_state(&self, connection: State) -> (state: QomtUdpState)
        ensures
            state == if self@.state == QomtUdpState::Established {
                match connection {
                    State::Established => QomtUdpState::Established,
                    State::Initial => QomtUdpState::Connecting,
                    State::Draining | State::Closed => QomtUdpState::Closed,
                }
            } else {
                self@.state
            },
    {
        match self.state {
            QomtUdpState::Established => match connection {
                State::Established => QomtUdpState::Established,
                State::Initial => QomtUdpState::Connecting,
                State::Draining | State::Closed => QomtUdpState::Closed,
            },
            QomtUdpState::Disabled => QomtUdpState::Disabled,
            QomtUdpState::Connecting => QomtUdpState::Connecting,
            QomtUdpState::Reconnecting => QomtUdpState::Reconnecting,
            QomtUdpState::Closed => QomtUdpState::Closed,
        }
    }
}

/// What happens while the bypass is up.
#[derive(Clone, Copy, Debug, PartialEq, Eq, Structural)]
pub enum GenerationEvent {
    /// The QUIC connection is closed.
    Closed,
    /// No more datagrams come.
    RouterFinished,
    /// It is time to keep the connection alive.
    KeepaliveTick,
}

/// What is done about it.
#[derive(Clone, Copy, Debug, PartialEq, Eq, Structural)]
pub enum GenerationStep {
    Continue,
    /// Ask the peer for an acknowledgement.
    SendAckEliciting,
    /// Wait for the end of the datagrams, then give the generation up.
    AwaitRouterAndStop,
    /// Give the generation up.
    Stop,
}

/// One bypass connection, from its handshake to its end.
pub struct UdpGeneration {
    router_finished: bool,
    keepalive: bool,
}

impl UdpGeneration {
    pub closed spec fn router_finished(&self) -> bool {
        self.router_finished
    }

    /// The connection is kept alive.
    pub closed spec fn keepalive(&self) -> bool {
        self.keepalive
    }

    /// Only the connecting end keeps the connection alive.
    pub fn new(keepalive: bool) -> (generation: Self)
        ensures
            !generation.router_finished(),
            generation.keepalive() == keepalive,
    {
        UdpGeneration { router_finished: false, keepalive }
    }

    /// Takes an event in. Datagrams end as soon as the connection drains; a new generation waits
    /// until it is closed.
    pub fn step(&mut self, event: GenerationEvent) -> (step: GenerationStep)
        ensures
            final(self).router_finished() == (old(self).router_finished() || event
                == GenerationEvent::RouterFinished),
            final(self).keepalive() == (old(self).keepalive() && event
                != GenerationEvent::RouterFinished),
            step == match event {
                GenerationEvent::Closed => if old(self).router_finished() {
                    GenerationStep::Stop
                } else {
                    GenerationStep::AwaitRouterAndStop
                },
                GenerationEvent::RouterFinished => GenerationStep::Continue,
                GenerationEvent::KeepaliveTick => if old(self).keepalive() {
                    GenerationStep::SendAckEliciting
                } else {
                    GenerationStep::Continue
                },
            },
    {
        match event {
            GenerationEvent::Closed => if self.router_finished {
                GenerationStep::Stop
            } else {
                GenerationStep::AwaitRouterAndStop
            },
            GenerationEvent::RouterFinished => {
                self.router_finished = true;
                self.keepalive = false;
                GenerationStep::Continue
            },
            GenerationEvent::KeepaliveTick => if self.keepalive {
                GenerationStep::SendAckEliciting
            } else {
                GenerationStep::Continue
            },
        }
    }
}

/// The back-off never goes beyond the longest delay, and a delay within it never shrinks.
pub proof fn law_back_off_is_bounded(delay: int, maximum: int)
    requires
        0 <= delay,
        0 <= maximum,
    ensures
        0 <= backed_off(delay, maximum) <= maximum,
        delay <= maximum ==> backed_off(delay, maximum) >= delay,
{
}

/// A jittered delay differs from the delay by at most a fifth of it.
pub proof fn law_jitter_is_at_most_a_fifth(delay: int, maximum: int)
    requires
        0 <= delay <= maximum,
    ensures
        jittered_minimum(delay) * 5 >= delay * 4,
        jittered_maximum(delay, maximum) * 5 <= delay * 6,
        jittered_minimum(delay) <= delay <= jittered_maximum(delay, maximum) <= maximum,
{
}

/// What the header of a packet on a new bypass says.
pub struct InitialHeader {
    pub is_initial: bool,
    pub version_supported: bool,
    pub dcid: Vec<u8>,
}

impl InitialHeader {
    /// The packet can open a connection.
    pub open spec fn acceptable(&self) -> bool {
        self.is_initial && self.version_supported && 0 < self.dcid@.len() <= CONNECTION_ID_LENGTH
    }
}

/// What is done with a packet on a new bypass.
#[derive(Clone, Debug, PartialEq, Eq)]
pub enum InitialStep {
    /// Open a connection of this id, and feed the packet to it.
    Accept(Vec<u8>),
    /// The packet is dropped: take the next one.
    Next,
    TooManyRejected,
    DeadlineElapsed,
}

/// Looks for the first valid packet on a new bypass, within limits of number and time.
pub struct InitialFilter {
    rejected: usize,
    deadline: TimeSpan,
}

impl InitialFilter {
    pub closed spec fn rejected(&self) -> int {
        self.rejected as int
    }

    pub closed spec fn deadline(&self) -> TimeSpan {
        self.deadline
    }

    /// The filter has not given up.
    pub open spec fn valid(&self) -> bool {
        self.rejected() < QOMT_MAX_REJECTED_UDP_INITIAL_PACKETS
    }

    pub fn new(deadline: TimeSpan) -> (filter: Self)
        ensures
            filter.rejected() == 0,
            filter.deadline() == deadline,
            filter.valid(),
    {
        InitialFilter { rejected: 0, deadline }
    }

    /// Takes in the header of a packet, or `None` where it has none.
    pub fn on_packet(&mut self, header: Option<InitialHeader>, now: TimeSpan) -> (step: InitialStep)
        requires
            old(self).valid(),
        ensures
            final(self).deadline() == old(self).deadline(),
            if header is Some && header->Some_0.acceptable() {
                step matches InitialStep::Accept(id) && id@ == header->Some_0.dcid@
                    && final(self).rejected() == old(self).rejected()
            } else {
                &&& final(self).rejected() == old(self).rejected() + 1
                &&& step == if !final(self).valid() {
                    InitialStep::TooManyRejected
                } else if now.nanos >= old(self).deadline().nanos {
                    InitialStep::DeadlineElapsed
                } else {
                    InitialStep::Next
                }
            },
    {
        if let Some(header) = header {
            if header.is_initial && header.version_supported && header.dcid.len() > 0
                && header.dcid.len() <= CONNECTION_ID_LENGTH {
                return InitialStep::Accept(header.dcid);
            }
        }
        self.rejected = self.rejected + 1;
        if self.rejected >= QOMT_MAX_REJECTED_UDP_INITIAL_PACKETS {
            InitialStep::TooManyRejected
        } else if now.nanos >= self.deadline.nanos {
            InitialStep::DeadlineElapsed
        } else {
            InitialStep::Next
        }
    }
}

/// The connection id that the first packet of a main connection carries, or the length that was
/// wrong.
pub fn accept_connection_id(first_packet: Vec<u8>) -> (result: Result<Vec<u8>, usize>)
    ensures
        match result {
            Ok(id) => first_packet@.len() == CONNECTION_ID_LENGTH && id@ == first_packet@,
            Err(length) => first_packet@.len() != CONNECTION_ID_LENGTH && length
                == first_packet@.len(),
        },
{
    if first_packet.len() == CONNECTION_ID_LENGTH {
        Ok(first_packet)
    } else {
        Err(first_packet.len())
    }
}

/// What a diagnostic line says of the bypass.
pub open spec fn udp_text(state: QomtUdpState, connection: Seq<char>) -> Seq<char> {
    match state {
        QomtUdpState::Disabled => " udp=disabled"@,
        QomtUdpState::Connecting => " udp=connecting"@,
        QomtUdpState::Established => " udp=["@ + connection + "]"@,
        QomtUdpState::Reconnecting => " udp=reconnecting"@,
        QomtUdpState::Closed => " udp=closed"@,
    }
}

/// What a diagnostic line says of the datagrams.
pub open spec fn datagram_text(stats: QomtDatagramStats) -> Seq<char> {
    " qomt_dgram=[sent="@ + decimal_text(stats.sent as nat) + " recv="@ + decimal_text(
        stats.received as nat,
    ) + " send_full="@ + decimal_text(stats.dropped_send_queue_full as nat) + " unknown="@
        + decimal_text(stats.dropped_unknown_association as nat) + " recv_full="@ + decimal_text(
        stats.dropped_receive_queue_full as nat,
    ) + " malformed="@ + decimal_text(stats.dropped_malformed as nat) + "]"@
}

/// The diagnostic line of a connection with a bypass: that of the main connection (`main`), then
/// the bypass (with the line of its connection, `udp`, while it is up), then the datagrams.
pub fn format_qomt_diagnostics(
    main: &str,
    supervisor: &UdpSupervisor,
    udp: &str,
    stats: &QomtDatagramStats,
) -> (text: String)
    ensures
        text@ == main@ + udp_text(supervisor@.state, udp@) + datagram_text(*stats),
{
    let mut text = main.to_owned();
    match supervisor.state {
        QomtUdpState::Disabled => text.append(" udp=disabled"),
        QomtUdpState::Connecting => text.append(" udp=connecting"),
        QomtUdpState::Established => {
            text.append(" udp=[");
            text.append(udp);
            text.append("]");
        },
        QomtUdpState::Reconnecting => text.append(" udp=reconnecting"),
        QomtUdpState::Closed => text.append(" udp=closed"),
    }
    assert(text@ =~= main@ + udp_text(supervisor@.state, udp@));
    let ghost front = text@;
    text.append(" qomt_dgram=[sent=");
    text.append(number_text(stats.sent as u128).as_str());
    text.append(" recv=");
    text.append(number_text(stats.received as u128).as_str());
    text.append(" send_full=");
    text.append(number_text(stats.dropped_send_queue_full as u128).as_str());
    text.append(" unknown=");
    text.append(number_text(stats.dropped_unknown_association as u128).as_str());
    text.append(" recv_full=");
    text.append(number_text(stats.dropped_receive_queue_full as u128).as_str());
    text.append(" malformed=");
    text.append(number_text(stats.dropped_malformed as u128).as_str());
    text.append("]");
    assert(text@ =~= front + datagram_text(*stats));
    text
}

/// Each delay is twice the one before it, up to the longest delay of the policy; nothing else of
/// the supervisor changes.
pub proof fn law_delays_double_up_to_the_longest(
    first: &mut UdpSupervisor,
    second: &mut UdpSupervisor,
    delay: TimeSpan,
    next: TimeSpan,
)
    requires
        call_ensures(UdpSupervisor::next_delay, (first,), delay),
        call_ensures(UdpSupervisor::next_delay, (second,), next),
        old(second)@ == final(first)@,
    ensures
        ({
            let longest = old(first)@.policy.reconnect_max_delay.nanos;
            &&& delay.nanos * 2 <= longest ==> next.nanos == delay.nanos * 2
            &&& delay.nanos * 2 > longest ==> next.nanos == longest
        }),
        final(second)@.state == old(first)@.state,
        final(second)@.generation == old(first)@.generation,
        final(second)@.policy == old(first)@.policy,
{
}

/// A bypass that lasted for the longest delay starts the back-off over; a shorter one leaves it
/// where it was. Either way the bypass is to be built up again.
pub proof fn law_only_lasting_bypasses_reset_the_back_off(
    ended: &mut UdpSupervisor,
    lifetime: TimeSpan,
    after: &mut UdpSupervisor,
    delay: TimeSpan,
)
    requires
        call_ensures(UdpSupervisor::generation_ended, (ended, lifetime), ()),
        call_ensures(UdpSupervisor::next_delay, (after,), delay),
        old(after)@ == final(ended)@,
    ensures
        lifetime.nanos >= old(ended)@.policy.reconnect_max_delay.nanos ==> delay
            == old(ended)@.policy.reconnect_initial_delay,
        lifetime.nanos < old(ended)@.policy.reconnect_max_delay.nanos ==> delay.nanos
            == old(ended)@.retry_delay,
        final(ended)@.state == QomtUdpState::Reconnecting,
        final(ended)@.generation == old(ended)@.generation,
{
}

/// A new bypass connects, one that was up before reconnects; being up counts the generations; and
/// what its users see of it is its own state, except that one that is up is seen as its connection
/// is.
pub proof fn law_bypass_states_follow_the_attempts(
    fresh: UdpSupervisor,
    policy: QomtUdpReconnectPolicy,
    begun: &mut UdpSupervisor,
    up: &mut UdpSupervisor,
    again: &mut UdpSupervisor,
    connection: State,
    seen: QomtUdpState,
)
    requires
        call_ensures(UdpSupervisor::new, (policy,), fresh),
        old(begun)@ == fresh@,
        call_ensures(UdpSupervisor::begin_attempt, (begun,), ()),
        old(up)@ == final(begun)@,
        call_ensures(UdpSupervisor::established, (up,), ()),
        old(again)@ == final(up)@,
        call_ensures(UdpSupervisor::begin_attempt, (again,), ()),
        call_ensures(UdpSupervisor::udp_state, (final(up), connection), seen),
    ensures
        final(begun)@.state == QomtUdpState::Connecting,
        final(up)@.generation == 1,
        final(again)@.state == QomtUdpState::Reconnecting,
        fresh@.retry_delay == policy.reconnect_initial_delay.nanos,
        seen == QomtUdpState::Established <==> connection == State::Established,
        seen == QomtUdpState::Connecting <==> connection == State::Initial,
        seen == QomtUdpState::Closed <==> connection == State::Draining || connection
            == State::Closed,
{
}

/// Where the bypass is not up, its own state is what is seen, whatever its last connection is.
pub proof fn law_bypass_that_is_not_up_is_seen_as_it_is(
    supervisor: UdpSupervisor,
    connection: State,
    seen: QomtUdpState,
)
    requires
        call_ensures(UdpSupervisor::udp_state, (&supervisor, connection), seen),
        supervisor@.state != QomtUdpState::Established,
    ensures
        seen == supervisor@.state,
{
}

/// The bypass is kept alive every five seconds, and built up again after one second at first and
/// thirty at most.
pub proof fn law_standard_policy(policy: QomtUdpReconnectPolicy)
    requires
        policy == QomtUdpReconnectPolicy::standard(),
    ensures
        policy.keepalive_interval.nanos == 5_000_000_000,
        policy.reconnect_initial_delay.nanos == 1_000_000_000,
        policy.reconnect_max_delay.nanos == 30_000_000_000,
{
}

/// A jittered delay is within a fifth of the delay and never beyond the longest one.
pub proof fn law_jittered_delays_stay_near(delay: TimeSpan, maximum: TimeSpan, jittered: TimeSpan)
    requires
        call_ensures(reconnect_delay_with_jitter, (delay, maximum), jittered),
    ensures
        jittered.nanos <= maximum.nanos,
        jittered.nanos * 5 <= delay.nanos * 6,
        delay.nanos <= maximum.nanos ==> jittered.nanos * 5 >= delay.nanos * 4,
        delay.nanos * 4 > maximum.nanos * 5 ==> jittered == maximum,
{
}

/// A closed connection ends its generation once its datagrams have ended too, in whichever order
/// the two come; and a keep-alive is sent only by an end that keeps alive, until its datagrams end.
pub proof fn law_generations_end_after_their_datagrams(
    first: &mut UdpGeneration,
    second: &mut UdpGeneration,
    finished: GenerationStep,
    step: GenerationStep,
    event: GenerationEvent,
)
    requires
        call_ensures(UdpGeneration::step, (first, GenerationEvent::RouterFinished), finished),
        call_ensures(UdpGeneration::step, (second, event), step),
        old(second).router_finished() == final(first).router_finished(),
        old(second).keepalive() == final(first).keepalive(),
    ensures
        finished == GenerationStep::Continue,
        event == GenerationEvent::Closed ==> step == GenerationStep::Stop,
        event == GenerationEvent::KeepaliveTick ==> step == GenerationStep::Continue,
{
}

/// While datagrams may still come, a closed connection waits for their end, and a tick keeps the
/// connection alive where this end does so.
pub proof fn law_running_generations_wait_and_keep_alive(
    keepalive: bool,
    fresh: UdpGeneration,
    running: &mut UdpGeneration,
    event: GenerationEvent,
    step: GenerationStep,
)
    requires
        call_ensures(UdpGeneration::new, (keepalive,), fresh),
        *old(running) == fresh,
        call_ensures(UdpGeneration::step, (running, event), step),
    ensures
        event == GenerationEvent::Closed ==> step == GenerationStep::AwaitRouterAndStop,
        event == GenerationEvent::KeepaliveTick ==> (step == GenerationStep::SendAckEliciting
            <==> keepalive),
        event == GenerationEvent::KeepaliveTick && !keepalive ==> step == GenerationStep::Continue,
{
}

/// A packet opens a bypass exactly where it is an initial one of a supported version with an id of
/// one to 20 bytes, however many were dropped before and however late it is; its id is kept.
pub proof fn law_valid_initial_packets_open_a_bypass(
    filter: &mut InitialFilter,
    header: InitialHeader,
    now: TimeSpan,
    step: InitialStep,
)
    requires
        old(filter).valid(),
        call_ensures(InitialFilter::on_packet, (filter, Some(header), now), step),
    ensures
        step is Accept <==> header.is_initial && header.version_supported && 1
            <= header.dcid@.len() <= 20,
        step matches InitialStep::Accept(id) ==> id@ == header.dcid@,
{
}

/// The 64th packet that is dropped ends the search; before it, the deadline does.
pub proof fn law_search_for_an_initial_packet_is_limited(
    filter: &mut InitialFilter,
    now: TimeSpan,
    step: InitialStep,
)
    requires
        old(filter).valid(),
        call_ensures(InitialFilter::on_packet, (filter, None, now), step),
    ensures
        step is TooManyRejected <==> old(filter).rejected() == 63,
        old(filter).rejected() < 63 ==> (step is DeadlineElapsed <==> now.nanos
            >= old(filter).deadline().nanos),
        old(filter).rejected() < 63 && now.nanos < old(filter).deadline().nanos ==> step is Next,
        final(filter).rejected() == old(filter).rejected() + 1,
{
}

/// A connection id is a first packet of twenty bytes; another is refused with its length.
pub proof fn law_first_packets_are_connection_ids(
    first_packet: Vec<u8>,
    result: Result<Vec<u8>, usize>,
)
    requires
        call_ensures(accept_connection_id, (first_packet,), result),
    ensures
        result is Ok <==> first_packet@.len() == 20,
        result matches Ok(id) ==> id@ == first_packet@,
        result matches Err(length) ==> length == first_packet@.len(),
{
}

/// The line of an owner is that of its main connection, the state of its bypass and the counts of
/// its datagrams, each under its name.
pub proof fn law_diagnostics_tell_of_both_connections(
    main: &str,
    supervisor: UdpSupervisor,
    udp: &str,
    stats: QomtDatagramStats,
    text: String,
)
    requires
        call_ensures(format_qomt_diagnostics, (main, &supervisor, udp, &stats), text),
    ensures
        text@ == main@ + match supervisor@.state {
            QomtUdpState::Disabled => " udp=disabled"@,
            QomtUdpState::Connecting => " udp=connecting"@,
            QomtUdpState::Established => " udp=["@ + udp@ + "]"@,
            QomtUdpState::Reconnecting => " udp=reconnecting"@,
            QomtUdpState::Closed => " udp=closed"@,
        } + (" qomt_dgram=[sent="@ + decimal_text(stats.sent as nat) + " recv="@ + decimal_text(
            stats.received as nat,
        ) + " send_full="@ + decimal_text(stats.dropped_send_queue_full as nat) + " unknown="@
            + decimal_text(stats.dropped_unknown_association as nat) + " recv_full="@
            + decimal_text(stats.dropped_receive_queue_full as nat) + " malformed="@
            + decimal_text(stats.dropped_malformed as nat) + "]"@),
{
}

/// A supervisor begins by connecting, with the first delay of its policy; a generation begins with
/// its router running, and a search for an initial packet with none rejected.
pub proof fn law_supervision_begins_by_connecting(
    policy: QomtUdpReconnectPolicy,
    supervisor: UdpSupervisor,
    keepalive: bool,
    generation: UdpGeneration,
    deadline: TimeSpan,
    filter: InitialFilter,
)
    requires
        call_ensures(UdpSupervisor::new, (policy,), supervisor),
        call_ensures(UdpGeneration::new, (keepalive,), generation),
        call_ensures(InitialFilter::new, (deadline,), filter),
    ensures
        supervisor@.state == QomtUdpState::Connecting && supervisor@.generation == 0,
        supervisor@.retry_delay == policy.reconnect_initial_delay.nanos,
        supervisor@.policy == policy,
        !generation.router_finished() && generation.keepalive() == keepalive,
        filter.rejected() == 0 && filter.deadline() == deadline,
{
}

/// At most 64 handshakes are open at a time.
pub proof fn law_handshakes_are_limited()
    ensures
        MAX_PENDING_QOMT_HANDSHAKES == 64,
{
}

} // verus!
