//! Typed forms of the account and application-data documents.

use std::collections::HashMap;

use vstd::prelude::*;

use crate::event::util::UnixTime;
use crate::util::ServerCode;

verus! {

/// Account information as the daemon reports it.
pub struct AccountData {
    /// Whether the subscription is active.
    pub active: bool,
    /// Whether the subscription was cancelled.
    pub canceled: bool,
    /// Days left on the subscription.
    pub days_remaining: u32,
    /// When the subscription expires.
    pub expiration_time: UnixTime,
    /// Whether the expiry warning should show.
    pub expire_alert: bool,
    /// Whether the subscription has expired.
    pub expired: bool,
    /// Whether a user is logged in.
    pub logged_in: bool,
    /// Whether payment is due.
    pub needs_payment: bool,
    /// The subscription plan's name.
    pub plan: String,
    /// Whether the subscription renews itself.
    pub recurring: bool,
    /// Where to renew the subscription.
    pub renew_url: String,
    /// Whether the subscription can be renewed.
    pub renewable: bool,
    /// The account's user name.
    pub username: String,
}

/// The application-data document; no field of it is read by this client.
pub struct AppData {}

/// Daemon settings; no field of them is read by this client.
pub struct Settings {}

/// The daemon state document's typed form, as far as this client reads it.
pub struct State {
    /// Available regions by region code.
    pub available_locations: HashMap<ServerCode, ServerState>,
}

/// One region's availability entry.
pub struct ServerState {
    /// Whether the region is safe for automatic selection.
    pub auto_safe: bool,
    /// A dedicated IP label, if any.
    pub dedicated_ip: Option<String>,
}

} // verus!
