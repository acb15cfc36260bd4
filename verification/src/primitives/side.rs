//! The two ends of a connection.

use vstd::prelude::*;

verus! {

/// Which end of a connection this node is.
#[derive(Clone, Copy, Debug, PartialEq, Eq, Structural)]
pub enum ConnectionSide {
    Client,
    Server,
}

impl ConnectionSide {
    /// The low bits of the ids of the streams that this side opens.
    pub open spec fn bits(self) -> int {
        match self {
            ConnectionSide::Client => 0,
            ConnectionSide::Server => 1,
        }
    }

    /// The id of the stream with the given index that this side opens.
    pub open spec fn stream_id(self, index: int) -> int {
        index * 4 + self.bits()
    }

    pub fn stream_id_bits(&self) -> (bits: u64)
        ensures
            bits == self.bits(),
    {
        match self {
            ConnectionSide::Client => 0,
            ConnectionSide::Server => 1,
        }
    }

    /// The name of the side in log lines.
    pub fn label(&self) -> (name: &'static str)
        ensures
            name@ == match *self {
                ConnectionSide::Client => "client"@,
                ConnectionSide::Server => "server"@,
            },
    {
        match self {
            ConnectionSide::Client => "client",
            ConnectionSide::Server => "server",
        }
    }
}

/// Streams with different indices, or opened by different sides, have different ids.
pub proof fn law_stream_ids_are_distinct(
    side: ConnectionSide,
    index: int,
    other_side: ConnectionSide,
    other_index: int,
)
    requires
        index >= 0,
        other_index >= 0,
    ensures
        side.stream_id(index) == other_side.stream_id(other_index) <==> side == other_side && index
            == other_index,
{
}

/// Clients open the streams whose ids leave no remainder by four, servers those that leave one.
pub proof fn law_stream_ids_tell_the_side(
    side: ConnectionSide,
    index: int,
    bits: u64,
    name: &'static str,
)
    requires
        index >= 0,
        call_ensures(ConnectionSide::stream_id_bits, (&side,), bits),
        call_ensures(ConnectionSide::label, (&side,), name),
    ensures
        side is Client <==> bits == 0,
        side is Server <==> bits == 1,
        side.stream_id(index) % 4 == bits,
        side.stream_id(index) / 4 == index,
        side is Client ==> name@ == "client"@,
        side is Server ==> name@ == "server"@,
{
}

} // verus!
