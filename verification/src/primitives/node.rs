//! The ids of nodes.

use vstd::prelude::*;

use crate::qomt_tunnel::mt_connections::random_uuid;
use crate::text::bytes_equal;

verus! {

/// Names a node: a random UUID.
#[derive(Clone, Copy, Debug, PartialEq, Eq, Hash)]
pub struct NodeId {
    pub bytes: [u8; 16],
}

impl View for NodeId {
    type V = Seq<u8>;

    open spec fn view(&self) -> Seq<u8> {
        self.bytes@
    }
}

impl NodeId {
    /// An id that no other node is likely to have.
    pub fn new() -> (id: Self)
        ensures
            id@[6] / 16 == 4,
            id@[8] / 64 == 2,
    {
        NodeId { bytes: random_uuid() }
    }

    /// Whether two ids are the same.
    pub fn same(&self, other: &NodeId) -> (result: bool)
        ensures
            result == (self@ == other@),
    {
        bytes_equal(self.bytes.as_slice(), other.bytes.as_slice())
    }
}

/// Ids are random UUIDs, told from other kinds by their version and variant, and are the same only
/// where every byte is.
pub proof fn law_node_ids_are_random_uuids(id: NodeId, other: NodeId, same: bool)
    requires
        call_ensures(NodeId::new, (), id),
        call_ensures(NodeId::same, (&id, &other), same),
    ensures
        64 <= id.bytes@[6] < 80,
        128 <= id.bytes@[8] < 192,
        same <==> forall|i: int| 0 <= i < 16 ==> id.bytes@[i] == other.bytes@[i],
{
    if forall|i: int| 0 <= i < 16 ==> id.bytes@[i] == other.bytes@[i] {
        assert(id.bytes@ =~= other.bytes@);
    }
}

} // verus!
