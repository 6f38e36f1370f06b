//! What the host supplies each round: buffered peer messages composed into
//! an inbound view, and a sink for the serialized outbound message.

use vstd::prelude::*;

use crate::inbound::InboundMessage;
use crate::kv::OrdKey;

verus! {

/// The network a host binds an engine to.  Implementations live with the
/// host: they move bytes, discover neighbours, and compose the inbound
/// view from what the peers sent since the last round.
pub trait Network<Id: OrdKey> {
    /// Hands this round's serialized outbound message to the network.
    fn prepare_outbound(&mut self, outbound: Vec<u8>);

    /// Composes the inbound view from the peers' buffered messages.
    fn prepare_inbound(&mut self) -> InboundMessage<Id>;
}

} // verus!
