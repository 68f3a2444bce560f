//! Small wire-format helper types.

use vstd::prelude::*;

verus! {

/// A point in time as milliseconds since the Unix epoch.
#[derive(Debug, Clone, Copy, PartialEq, Eq, Structural)]
pub struct UnixTime(pub u64);

/// An IPv4 address that the wire encodes as a dotted string, with the
/// empty string standing for no address; held here as the four octets.
#[derive(Debug, Clone, Copy, PartialEq, Eq)]
pub struct OptionalIpv4Addr(pub Option<Ipv4Octets>);

/// The four octets of an IPv4 address.
#[derive(Debug, Clone, Copy, PartialEq, Eq, Structural)]
pub struct Ipv4Octets {
    /// The first octet.
    pub a: u8,
    /// The second octet.
    pub b: u8,
    /// The third octet.
    pub c: u8,
    /// The fourth octet.
    pub d: u8,
}

} // verus!
