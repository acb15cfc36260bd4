//! Path measurements, and the loss detection delay that follows from them.

use vstd::prelude::*;

use crate::time::TimeSpan;

verus! {

pub const UNDERLAY_LOSS_DELAY_UPDATE_INTERVAL_MILLIS: u64 = 50;

/// Delays are set in multiples of this.
pub const UNDERLAY_LOSS_DELAY_QUANTUM_MICROS: u64 = 10_000;

/// The least time between two log lines about an active guard.
pub const UNDERLAY_LOSS_DELAY_LOG_INTERVAL_NANOS: u128 = 5_000_000_000;

/// The acknowledgement stall from which an active guard is worth a log line.
pub const UNDERLAY_LOSS_DELAY_LOG_ACK_STALL_NANOS: u128 = 250_000_000;

/// The least delay where packets travel over several reliable paths, which may overtake each
/// other for seconds.
pub const RELIABLE_MULTIPATH_REORDER_DELAY_FLOOR_NANOS: u128 = 5_000_000_000;

/// A snapshot of the active path of a connection.
#[derive(Clone, Copy, Debug, PartialEq, Eq, Structural)]
pub struct QuicPathMetrics {
    pub rtt: TimeSpan,
    pub min_rtt: Option<TimeSpan>,
    pub rttvar: TimeSpan,
    pub dgram_sent: usize,
    pub dgram_recv: usize,
    pub dgram_lost: usize,
}

/// One path of a connection, as the transport reports it.
#[derive(Clone, Copy, Debug, PartialEq, Eq, Structural)]
pub struct PathStats {
    pub active: bool,
    pub metrics: QuicPathMetrics,
}

/// The path whose measurements stand for the connection: the first active one, else the first.
pub open spec fn chosen_path(paths: Seq<PathStats>) -> Option<QuicPathMetrics> {
    if exists|i: int| 0 <= i < paths.len() && (#[trigger] paths[i]).active {
        Some(first_active(paths))
    } else if paths.len() > 0 {
        Some(paths[0].metrics)
    } else {
        None
    }
}

/// The measurements of the first active path.
pub open spec fn first_active(paths: Seq<PathStats>) -> QuicPathMetrics
    decreases paths.len(),
{
    if paths.len() == 0 {
        arbitrary()
    } else if paths[0].active {
        paths[0].metrics
    } else {
        first_active(paths.skip(1))
    }
}

/// The measurements that stand for the connection.
pub fn select_path(paths: &[PathStats]) -> (metrics: Option<QuicPathMetrics>)
    ensures
        metrics == chosen_path(paths@),
{
    let mut index: usize = 0;
    assert(paths@.skip(0) =~= paths@);
    while index < paths.len()
        invariant
            index <= paths.len(),
            forall|i: int| 0 <= i < index ==> !(#[trigger] paths@[i]).active,
            first_active(paths@) == first_active(paths@.skip(index as int)),
        decreases paths.len() - index,
    {
        proof {
            assert(paths@.skip(index as int)[0] == paths@[index as int]);
            assert(paths@.skip(index as int).skip(1) =~= paths@.skip(index + 1));
        }
        if paths[index].active {
            return Some(paths[index].metrics);
        }
        index += 1;
    }
    if paths.len() > 0 {
        Some(paths[0].metrics)
    } else {
        None
    }
}

/// What the reliable paths under a connection show.
#[derive(Clone, Copy, Debug, PartialEq, Eq, Structural)]
pub struct UnderlaySnapshot {
    pub paths: usize,
    pub loss_delay_floor: TimeSpan,
    pub quorum_ack_stall: TimeSpan,
}

/// The delay that a snapshot calls for, in nanoseconds.
pub open spec fn wanted_floor(snapshot: UnderlaySnapshot) -> int {
    if snapshot.paths > 1 && snapshot.loss_delay_floor.nanos
        < RELIABLE_MULTIPATH_REORDER_DELAY_FLOOR_NANOS {
        RELIABLE_MULTIPATH_REORDER_DELAY_FLOOR_NANOS as int
    } else {
        snapshot.loss_delay_floor.nanos as int
    }
}

/// Whole microseconds, at most what 64 bits hold.
pub open spec fn micros_of(nanos: int) -> int {
    if nanos / 1_000 <= u64::MAX {
        nanos / 1_000
    } else {
        u64::MAX as int
    }
}

/// The next multiple of the quantum, as far as 64 bits hold it.
pub open spec fn quantized(micros: int) -> int {
    let raised = micros + (UNDERLAY_LOSS_DELAY_QUANTUM_MICROS - 1);
    let capped = if raised <= u64::MAX {
        raised
    } else {
        u64::MAX as int
    };
    capped / (UNDERLAY_LOSS_DELAY_QUANTUM_MICROS as int) * UNDERLAY_LOSS_DELAY_QUANTUM_MICROS
}

/// The delay set is a multiple of the quantum, and less than one quantum above what was asked
/// for; it is below it only where 64 bits hold no multiple that reaches it.
pub proof fn law_quantized_delay_covers_the_wanted_one(micros: int)
    requires
        0 <= micros <= u64::MAX,
    ensures
        quantized(micros) % (UNDERLAY_LOSS_DELAY_QUANTUM_MICROS as int) == 0,
        quantized(micros) < micros + UNDERLAY_LOSS_DELAY_QUANTUM_MICROS,
        quantized(micros) >= micros <==> micros <= u64::MAX as int
            / UNDERLAY_LOSS_DELAY_QUANTUM_MICROS as int * UNDERLAY_LOSS_DELAY_QUANTUM_MICROS,
{
}

/// What a tick of the guard asks for.
#[derive(Clone, Copy, Debug, PartialEq, Eq, Structural)]
pub struct LossDelayUpdate {
    /// The delay in force from now on.
    pub floor_micros: u64,
    /// The transport has to be told.
    pub changed: bool,
    /// A log line is due.
    pub log: bool,
}

/// Follows the underlay and sets the loss detection delay of the connection above it.
pub struct LossDelayGuard {
    applied_floor_micros: u64,
    last_log: Option<TimeSpan>,
}

impl LossDelayGuard {
    /// The delay that the transport was last told.
    pub closed spec fn applied(&self) -> int {
        self.applied_floor_micros as int
    }

    /// The time of the last log line.
    pub closed spec fn logged(&self) -> Option<TimeSpan> {
        self.last_log
    }

    /// The guard is active: acknowledgements have stalled and the delay is beyond twice the
    /// round trip.
    pub open spec fn active(snapshot: UnderlaySnapshot, quic_rtt: Option<TimeSpan>) -> bool {
        snapshot.quorum_ack_stall.nanos >= UNDERLAY_LOSS_DELAY_LOG_ACK_STALL_NANOS && match quic_rtt {
            Some(rtt) => quantized(micros_of(wanted_floor(snapshot))) * 1_000 > rtt.nanos * 2,
            None => false,
        }
    }

    pub fn new() -> (guard: Self)
        ensures
            guard.applied() == 0,
            guard.logged() is None,
    {
        LossDelayGuard { applied_floor_micros: 0, last_log: None }
    }

    /// Takes a snapshot in.
    pub fn tick(&mut self, snapshot: UnderlaySnapshot, quic_rtt: Option<TimeSpan>, now: TimeSpan)
        -> (update: LossDelayUpdate)
        ensures
            update.floor_micros == quantized(micros_of(wanted_floor(snapshot))),
            update.changed == (update.floor_micros != old(self).applied()),
            final(self).applied() == update.floor_micros,
            update.log == (Self::active(snapshot, quic_rtt) && match old(self).logged() {
                Some(last) => now.nanos - last.nanos >= UNDERLAY_LOSS_DELAY_LOG_INTERVAL_NANOS,
                None => true,
            }),
            final(self).logged() == if update.log {
                Some(now)
            } else {
                old(self).logged()
            },
    {
        let mut wanted: u128 = snapshot.loss_delay_floor.nanos;
        if snapshot.paths > 1 && wanted < RELIABLE_MULTIPATH_REORDER_DELAY_FLOOR_NANOS {
            wanted = RELIABLE_MULTIPATH_REORDER_DELAY_FLOOR_NANOS;
        }
        let micros: u64 = if wanted / 1_000 <= u64::MAX as u128 {
            (wanted / 1_000) as u64
        } else {
            u64::MAX
        };
        let raised: u64 = if micros <= u64::MAX - (UNDERLAY_LOSS_DELAY_QUANTUM_MICROS - 1) {
            micros + (UNDERLAY_LOSS_DELAY_QUANTUM_MICROS - 1)
        } else {
            u64::MAX
        };
        let floor_micros: u64 = raised / UNDERLAY_LOSS_DELAY_QUANTUM_MICROS
            * UNDERLAY_LOSS_DELAY_QUANTUM_MICROS;
        let changed = floor_micros != self.applied_floor_micros;
        self.applied_floor_micros = floor_micros;
        let beyond = match quic_rtt {
            Some(rtt) => {
                let floor_nanos: u128 = floor_micros as u128 * 1_000;
                rtt.nanos < floor_nanos && rtt.nanos < floor_nanos - rtt.nanos
            },
            None => false,
        };
        let due = match self.last_log {
            Some(last) => now.nanos >= last.nanos && now.nanos - last.nanos
                >= UNDERLAY_LOSS_DELAY_LOG_INTERVAL_NANOS,
            None => true,
        };
        let log = snapshot.quorum_ack_stall.nanos >= UNDERLAY_LOSS_DELAY_LOG_ACK_STALL_NANOS
            && beyond && due;
        if log {
            self.last_log = Some(now);
        }
        LossDelayUpdate { floor_micros, changed, log }
    }
}

/// The path that counts is an active one where there is one, with none active before it; else the
/// first.
pub proof fn law_first_active_path_counts(paths: Seq<PathStats>, index: int)
    ensures
        0 <= index < paths.len() && paths[index].active && (forall|i: int|
            0 <= i < index ==> !(#[trigger] paths[i]).active) ==> chosen_path(paths) == Some(
            paths[index].metrics,
        ),
        paths.len() > 0 && (forall|i: int| 0 <= i < paths.len() ==> !(#[trigger] paths[i]).active)
            ==> chosen_path(paths) == Some(paths[0].metrics),
        paths.len() == 0 ==> chosen_path(paths) is None,
{
    if 0 <= index < paths.len() && paths[index].active && forall|i: int|
        0 <= i < index ==> !(#[trigger] paths[i]).active {
        lemma_first_active(paths, index);
    }
}

proof fn lemma_first_active(paths: Seq<PathStats>, index: int)
    requires
        0 <= index < paths.len(),
        paths[index].active,
        forall|i: int| 0 <= i < index ==> !(#[trigger] paths[i]).active,
    ensures
        first_active(paths) == paths[index].metrics,
    decreases index,
{
    if index > 0 {
        assert(!paths[0].active);
        let rest = paths.skip(1);
        assert forall|i: int| 0 <= i < index - 1 implies !(#[trigger] rest[i]).active by {
            assert(!paths[i + 1].active);
        }
        lemma_first_active(rest, index - 1);
    }
}

/// The delay that is set covers the one that the paths ask for, exceeds it by less than ten
/// milliseconds where it is not raised, and is at least five seconds where several paths carry the
/// connection.
pub proof fn law_set_delay_covers_the_paths(
    guard: &mut LossDelayGuard,
    snapshot: UnderlaySnapshot,
    quic_rtt: Option<TimeSpan>,
    now: TimeSpan,
    update: LossDelayUpdate,
)
    requires
        snapshot.loss_delay_floor.nanos <= 1_000_000_000_000_000_000,
        call_ensures(LossDelayGuard::tick, (guard, snapshot, quic_rtt, now), update),
    ensures
        update.floor_micros * 1_000 + 1_000 > snapshot.loss_delay_floor.nanos,
        snapshot.paths > 1 ==> update.floor_micros >= 5_000_000,
        snapshot.paths <= 1 ==> update.floor_micros * 1_000 < snapshot.loss_delay_floor.nanos
            + 10_000_000,
        snapshot.loss_delay_floor.nanos >= 5_000_000_000 ==> update.floor_micros * 1_000
            < snapshot.loss_delay_floor.nanos + 10_000_000,
        snapshot.paths > 1 && snapshot.loss_delay_floor.nanos <= 5_000_000_000
            ==> update.floor_micros == 5_000_000,
        update.floor_micros % 10_000 == 0,
        update.changed <==> update.floor_micros != old(guard).applied(),
        final(guard).applied() == update.floor_micros,
{
    law_quantized_delay_covers_the_wanted_one(micros_of(wanted_floor(snapshot)));
}

/// Nothing changes where the paths ask for the same again, and a log line is at least five seconds
/// behind the one before it.
pub proof fn law_repeated_ticks_change_nothing(
    first: &mut LossDelayGuard,
    second: &mut LossDelayGuard,
    snapshot: UnderlaySnapshot,
    quic_rtt: Option<TimeSpan>,
    now: TimeSpan,
    later: TimeSpan,
    update: LossDelayUpdate,
    update_then: LossDelayUpdate,
)
    requires
        call_ensures(LossDelayGuard::tick, (first, snapshot, quic_rtt, now), update),
        *old(second) == *final(first),
        call_ensures(LossDelayGuard::tick, (second, snapshot, quic_rtt, later), update_then),
    ensures
        !update_then.changed,
        update_then.floor_micros == update.floor_micros,
        update.log && update_then.log ==> later.nanos >= now.nanos + 5_000_000_000,
        update.log && later.nanos >= now.nanos + 5_000_000_000 ==> update_then.log,
        quic_rtt is None || snapshot.quorum_ack_stall.nanos < 250_000_000 ==> !update.log,
{
}

/// A new guard has set no delay and written no line.
pub proof fn law_new_guards_have_set_nothing(guard: LossDelayGuard)
    requires
        call_ensures(LossDelayGuard::new, (), guard),
    ensures
        guard.applied() == 0,
        guard.logged() is None,
{
}

} // verus!
