use vstd::prelude::*;
use crate::node::NodeId;

verus! {

/// The generic configuration contract consumed by the embedding consensus
/// engine: one bundle naming the write-payload type, the read-payload type,
/// and the node identifier type of a deployment. The identifier type must
/// satisfy the active [`NodeId`] capability contract; a bundle whose
/// identifier type misses a capability is rejected when the crate is
/// compiled.
pub trait TypeConfig: Sized + 'static {
    /// The payload carried by write requests.
    type D: Sized + 'static;

    /// The payload carried by read responses.
    type R: Sized + 'static;

    /// The identifier type naming a cluster participant.
    type NodeId: NodeId;
}

} // verus!
