//! The life of a QUIC connection, as far as its users see it.

use vstd::prelude::*;

verus! {

/// How far a connection has come. It only ever moves down this list.
#[derive(Clone, Copy, Debug, PartialEq, Eq, PartialOrd, Structural)]
pub enum State {
    Initial,
    Established,
    Draining,
    Closed,
}

impl State {
    pub open spec fn rank(self) -> int {
        match self {
            State::Initial => 0,
            State::Established => 1,
            State::Draining => 2,
            State::Closed => 3,
        }
    }

    /// The later of two states.
    pub open spec fn later(self, other: State) -> State {
        if self.rank() >= other.rank() {
            self
        } else {
            other
        }
    }

    fn rank_number(self) -> (rank: u8)
        ensures
            rank == self.rank(),
    {
        match self {
            State::Initial => 0,
            State::Established => 1,
            State::Draining => 2,
            State::Closed => 3,
        }
    }

    /// Whether a wait for `target` is over.
    pub fn has_reached(self, target: State) -> (result: bool)
        ensures
            result == (self.rank() >= target.rank()),
    {
        self.rank_number() >= target.rank_number()
    }
}

/// What the transport says of itself.
#[derive(Clone, Copy, Debug, PartialEq, Eq, Structural)]
pub struct TransportPhase {
    pub established: bool,
    pub draining: bool,
    pub closed: bool,
}

impl TransportPhase {
    /// The state that the transport is in.
    pub open spec fn state(self) -> State {
        if self.closed {
            State::Closed
        } else if self.draining {
            State::Draining
        } else if self.established {
            State::Established
        } else {
            State::Initial
        }
    }

    /// The transport carries application data.
    pub open spec fn open(self) -> bool {
        self.established && !self.draining && !self.closed
    }

    pub fn is_open(self) -> (result: bool)
        ensures
            result == self.open(),
    {
        self.established && !self.draining && !self.closed
    }
}

/// Keeps the state of a connection from going back.
pub struct StateUpdater {
    state: State,
}

impl View for StateUpdater {
    type V = State;

    closed spec fn view(&self) -> State {
        self.state
    }
}

impl StateUpdater {
    pub fn new() -> (updater: Self)
        ensures
            updater@ == State::Initial,
    {
        StateUpdater { state: State::Initial }
    }

    pub fn state(&self) -> (state: State)
        ensures
            state == self@,
    {
        self.state
    }

    /// Follows the transport. Returns the state that holds afterwards.
    pub fn update(&mut self, phase: TransportPhase) -> (state: State)
        ensures
            final(self)@ == old(self)@.later(phase.state()),
            state == final(self)@,
    {
        let new_state = if phase.closed {
            State::Closed
        } else if phase.draining {
            State::Draining
        } else if phase.established {
            State::Established
        } else {
            State::Initial
        };
        self.set(new_state)
    }

    /// Moves on to `new_state` unless that would be a step back.
    pub fn set(&mut self, new_state: State) -> (state: State)
        ensures
            final(self)@ == old(self)@.later(new_state),
            state == final(self)@,
    {
        if !self.state.has_reached(new_state) {
            self.state = new_state;
        }
        self.state
    }
}

/// A connection never goes back to an earlier state, and stays closed once it is closed.
pub proof fn law_state_never_goes_back(state: State, next: State)
    ensures
        state.later(next).rank() >= state.rank(),
        state.later(next).rank() >= next.rank(),
        state == State::Closed ==> state.later(next) == State::Closed,
{
}

/// A connection goes from initial over established and draining to closed; reaching a state is
/// reaching every one before it.
pub proof fn law_states_are_in_order(state: State, target: State, reached: bool)
    requires
        call_ensures(State::has_reached, (state, target), reached),
    ensures
        target == State::Initial ==> reached,
        state == State::Closed ==> reached,
        target == State::Closed ==> (reached <==> state == State::Closed),
        target == State::Established ==> (reached <==> state != State::Initial),
        target == State::Draining ==> (reached <==> state == State::Draining || state
            == State::Closed),
{
}

/// What the transport says is taken over where it is further on: a closed transport closes, a
/// draining one drains, an established one is established.
pub proof fn law_transport_phases_are_taken_over(
    updater: &mut StateUpdater,
    phase: TransportPhase,
    state: State,
)
    requires
        call_ensures(StateUpdater::update, (updater, phase), state),
    ensures
        phase.closed ==> state == State::Closed,
        phase.draining && !phase.closed && old(updater)@ != State::Closed ==> state
            == State::Draining,
        phase.established && !phase.draining && !phase.closed && old(updater)@ == State::Initial
            ==> state == State::Established,
        !phase.established && !phase.draining && !phase.closed ==> state == old(updater)@,
        final(updater)@ == state,
{
}

/// Only an established transport that neither drains nor is closed is open.
pub proof fn law_open_transports_are_established(phase: TransportPhase, open: bool)
    requires
        call_ensures(TransportPhase::is_open, (phase,), open),
    ensures
        open <==> phase.established && !phase.draining && !phase.closed,
{
}

} // verus!
