//! Client-originated commands.

use vstd::prelude::*;

verus! {

/// The closed set of commands a client can send to the daemon.
#[derive(Debug, Clone, Copy, PartialEq, Eq, Structural)]
pub enum ClientEvent {
    /// Ask the daemon to connect the VPN.
    ConnectVPN,
    /// Ask the daemon to disconnect the VPN.
    DisconnectVPN,
}

} // verus!
