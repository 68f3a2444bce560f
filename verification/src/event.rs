//! The message envelope structure and the two event variant sets.

use vstd::prelude::*;

pub mod client;
pub mod daemon;
pub mod state;
pub mod util;

verus! {

/// The JSON-RPC style envelope around an event: the protocol version tag
/// and the tagged event itself.
pub struct JSONRPCMessage<Inner> {
    /// The protocol version; always the string `2.0` on the wire.
    pub jsonrpc_version: String,
    /// The tagged command or notification.
    pub event: Box<Inner>,
}

} // verus!
