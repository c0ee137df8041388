//! Events that a test connection records in place of network traffic.
use vstd::prelude::*;

verus! {

/// An event that occurred on a test connection.
#[derive(Clone, Debug)]
pub enum PlayerEvent {
    /// A packet was sent to the player.
    PacketSent {
        /// The encoded packet.
        data: Vec<u8>,
    },
    /// The player was disconnected.
    Disconnected {
        /// The disconnect reason.
        reason: String,
    },
}

} // verus!
