//! Plain-value view of the transport layer.
//!
//! The transport itself (sockets, retransmission, acks) lives outside this
//! crate; the simulation sees peers as opaque numeric ids, incoming events as
//! values, and produces outgoing sends tagged with the delivery guarantee the
//! transport must provide.

use vstd::prelude::*;

verus! {

/// What arrived from the transport.
#[derive(Clone, Debug)]
pub enum NetEventKind {
    Data(Vec<u8>),
    Connect,
    Disconnect,
}

/// One incoming transport event, with the peer it came from.
#[derive(Clone, Debug)]
pub struct NetEvent {
    pub source: u64,
    pub kind: NetEventKind,
}

/// Delivery guarantee of an outgoing send.
#[derive(Copy, Clone, Debug, PartialEq, Eq, Structural)]
pub enum Delivery {
    UnreliableSequenced,
    ReliableUnordered,
    ReliableOrdered,
}

/// One outgoing payload, with its destination and guarantee.
#[derive(Clone, Debug)]
pub struct Outgoing {
    pub dest: u64,
    pub delivery: Delivery,
    pub payload: Vec<u8>,
}

} // verus!
