//! Passive schema types for the daemon's full state document.

use std::collections::HashMap;

use vstd::prelude::*;

use crate::util::{CountryCode, ServerCode};

verus! {

/// The configuration of one connection attempt or established connection.
pub struct ConnectionInfo {
    /// The chosen region's code, if one is chosen.
    pub vpn_location: Option<ServerCode>,
    /// Whether the region was chosen automatically.
    pub vpn_location_auto: bool,
    /// The VPN method in use.
    pub method: ConnectionMethod,
    /// Whether the method was forced by the authentication method.
    pub method_forced_by_auth: bool,
    /// Which DNS servers are used.
    pub dns_type: DNSType,
    /// The OpenVPN cipher's name.
    pub openvpn_cipher: String,
    /// Whether other applications bypass the VPN.
    pub other_apps_use_vpn: bool,
    /// The proxy choice.
    pub proxy: String,
    /// A custom proxy address, if configured.
    pub proxy_custom: String,
    /// The Shadowsocks region's code, if chosen.
    pub proxy_shadowsocks: Option<ServerCode>,
    /// Whether the Shadowsocks region was chosen automatically.
    pub proxy_shadowsocks_location_auto: bool,
    /// Whether port forwarding is requested.
    pub port_forward: bool,
}

/// The VPN methods the daemon can use.
#[derive(Debug, Clone, Copy, PartialEq, Eq, Structural)]
pub enum ConnectionMethod {
    /// OpenVPN.
    OpenVPN,
    /// WireGuard.
    WireGuard,
}

/// Which DNS servers are used while connected.
#[derive(Debug, Clone, Copy, PartialEq, Eq, Structural)]
pub enum DNSType {
    /// The provider's DNS.
    PIA,
    /// Handshake resolution.
    Handshake,
    /// A local resolver.
    Local,
    /// The servers that were configured before connecting.
    Existing,
    /// Custom servers.
    Custom,
}

/// A transport protocol and port.
pub struct Transport {
    /// The protocol.
    pub protocol: TransportProtocol,
    /// The remote port.
    pub port: u16,
}

/// The transport protocols.
#[derive(Debug, Clone, Copy, PartialEq, Eq, Structural)]
pub enum TransportProtocol {
    /// TCP.
    TCP,
    /// UDP.
    UDP,
}

/// The regions chosen for one service.
pub struct ServiceLocations {
    /// The region the user chose, if any.
    pub chosen_location: Option<ServerCode>,
    /// The lowest-latency region, if known.
    pub best_location: Option<ServerCode>,
    /// The region that would be used next.
    pub next_location: Option<ServerCode>,
}

/// A network-automation rule: a condition and an action.
pub struct AutomationRule {
    /// When the rule applies.
    pub condition: AutomationRuleCondition,
    /// What the rule does.
    pub action: AutomationRuleAction,
}

/// The networks an automation rule matches.
pub struct AutomationRuleCondition {
    /// The kind of network matched.
    pub rule_type: AutomationRuleConditionType,
    /// A wireless SSID to match, or empty for any.
    pub ssid: String,
}

/// What an automation rule does; currently carries nothing.
pub struct AutomationRuleAction {}

/// The kinds of network an automation rule can match.
#[derive(Debug, Clone, Copy, PartialEq, Eq, Structural)]
pub enum AutomationRuleConditionType {
    /// Any unencrypted Wi-Fi network.
    OpenWifi,
    /// Any encrypted Wi-Fi network.
    ProtectedWifi,
    /// Any wired network.
    Wired,
    /// A Wi-Fi network with a specific SSID.
    SSID,
}

/// Bandwidth measured over one interval while connected.
#[derive(Debug, Clone, Copy, PartialEq, Eq, Structural)]
pub struct IntervalBandwidth {
    /// Bytes received in the interval.
    pub received: u64,
    /// Bytes sent in the interval.
    pub sent: u64,
}

/// The regions of one country, sorted by latency.
pub struct CountryLocations {
    /// The country.
    pub code: CountryCode,
    /// Its regions, lowest latency first.
    pub locations: Vec<ServerCode>,
}

/// How one country is displayed.
pub struct CountryDisplay {
    /// The country's display name.
    pub name: String,
    /// A prefix shown before region names.
    pub prefix: String,
}

/// A dynamically defined display role.
pub struct DynamicRole {
    /// The role's display name.
    pub name: String,
    /// The resource it points at.
    pub resource: String,
    /// The icon used on Windows.
    pub win_icon: String,
}

} // verus!
