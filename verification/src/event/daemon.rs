//! Daemon-originated notifications and the passive data they carry.

use std::collections::HashMap;

use vstd::prelude::*;

use crate::event::util::UnixTime;
use crate::json::JsonDoc;
use crate::util::ServerCode;

verus! {

/// The closed set of notifications the daemon sends: a single `data`
/// notification carrying one partial update document.
#[derive(Debug, PartialEq, Eq)]
pub enum DaemonEvent {
    /// One partial update of the daemon's state.
    Data(DataEventParam),
}

/// One partial update document: up to three optional partial objects, each
/// carried as a shallow document. Only `state` is merged into the mirror;
/// `account` and `data` are carried for wire compatibility.
#[derive(Debug, PartialEq, Eq)]
pub struct DataEventParam {
    /// A partial account object, if present.
    pub account: Option<JsonDoc>,
    /// A partial application-data object, if present.
    pub data: Option<JsonDoc>,
    /// A partial state object, if present.
    pub state: Option<JsonDoc>,
}

/// Account information as the daemon reports it.
pub struct AccountData {
    /// Whether the subscription is active.
    pub active: bool,
    /// Whether the subscription was cancelled.
    pub canceled: bool,
    /// Days left on the subscription.
    pub days_remaining: u32,
    /// When the subscription expires.
    pub expiration_time: UnixTime,
    /// Whether the expiry warning should show.
    pub expire_alert: bool,
    /// Whether the subscription has expired.
    pub expired: bool,
    /// Whether a user is logged in.
    pub logged_in: bool,
    /// Whether payment is due.
    pub needs_payment: bool,
    /// The subscription plan's name.
    pub plan: String,
    /// Whether the subscription renews itself.
    pub recurring: bool,
    /// Where to renew the subscription.
    pub renew_url: String,
    /// Whether the subscription can be renewed.
    pub renewable: bool,
    /// The account's user name.
    pub username: String,
}

/// The inner `data` document's typed form.
pub struct InnerData {
    /// Measured latencies per server, in milliseconds.
    pub modern_latencies: HashMap<ServerCode, u32>,
}

/// The ways a VPN connection can be carried.
#[derive(Debug, Clone, Copy, PartialEq, Eq, Hash, Structural)]
pub enum VPNConnectionType {
    /// IKEv2.
    IKEv2,
    /// The meta service.
    Meta,
    /// OpenVPN over TCP.
    OpenVPNTCP,
    /// OpenVPN over UDP.
    OpenVPNUDP,
    /// WireGuard.
    WireGuard,
}

/// Daemon settings; no field of them is read by this client.
pub struct Settings {}

/// The typed form of the daemon's own state document, as far as this
/// client reads it.
pub struct State {
    /// Available regions by region code.
    pub available_locations: HashMap<ServerCode, ServerState>,
}

/// One region's availability entry.
pub struct ServerState {
    /// Whether the region is safe for automatic selection.
    pub auto_safe: bool,
    /// A dedicated IP label, if any.
    pub dedicated_ip: Option<String>,
    /// Whether the region is geo-located.
    pub geo_located: bool,
    /// Whether the region offers a Shadowsocks relay.
    pub has_shadowsocks: bool,
    /// The region's code.
    pub id: ServerCode,
    /// Measured latency in milliseconds.
    pub latency: u32,
    /// Whether the region is offline.
    pub offline: bool,
    /// Whether the region supports port forwarding.
    pub port_forward: bool,
}

/// The daemon's connection lifecycle states.
#[derive(Debug, Clone, Copy, PartialEq, Eq, Structural)]
pub enum ConnectionState {
    /// No VPN connection, none wanted.
    Disconnected,
    /// A connection attempt is under way.
    Connecting,
    /// A new attempt after a lost connection.
    Reconnecting,
    /// Tearing down before reconnecting with new settings.
    DisconnectingToReconnect,
    /// The connection was lost and will be retried.
    Interrupted,
    /// The VPN is up.
    Connected,
    /// Tearing down towards `Disconnected`.
    Disconnecting,
}

} // verus!
