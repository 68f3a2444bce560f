//! Client-side implementation of the local IPC protocol spoken by a VPN
//! daemon, together with the state-reconciliation layer that turns the
//! daemon's stream of partial update documents into a coherent snapshot.
//!
//! The crate is organised bottom-up: `codec` holds the binary frame format,
//! `stream` the abstract byte-stream interfaces, `jsonrpc` the transport with
//! its sequence/acknowledgement bookkeeping and the connection-singleton
//! guard, `json` the shallow document model used by the envelope and the
//! reconciler, `event` the command/notification taxonomy, `envelope` the
//! JSON-RPC wrapping, `reconcile` the state mirror, and `connection` the
//! typed consumer-facing handles.

pub mod codec;
pub mod connection;
pub mod data;
pub mod envelope;
pub mod event;
pub mod json;
pub mod jsonrpc;
pub mod lang;
pub mod reconcile;
pub mod stream;
pub mod util;

pub use codec::IpcError;
pub use connection::take_connection;
pub use util::ServerCode;
