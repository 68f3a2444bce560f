//! The state reconciler: merges successive partial state documents into one
//! persistent mirror of the daemon's state.
//!
//! The mirror holds the daemon state as a shallow document. The first
//! complete state document populates it; every later partial document is
//! merged by overwriting whole top-level keys. A merge that breaks the
//! mirror's required-field contract is refused and leaves the mirror at its
//! pre-merge value.

use vstd::prelude::*;

use crate::event::daemon::{ConnectionState, DataEventParam};
use crate::json::{lookup, merge_docs, merge_entries, JsonDoc, QUOTE};

verus! {

/// The raw bytes of the key `connectionState`.
pub open spec fn key_connection_state() -> Seq<u8> {
    seq![
        'c' as u8, 'o' as u8, 'n' as u8, 'n' as u8, 'e' as u8, 'c' as u8, 't' as u8, 'i' as u8,
        'o' as u8, 'n' as u8, 'S' as u8, 't' as u8, 'a' as u8, 't' as u8, 'e' as u8,
    ]
}

/// The raw bytes of the key `externalIp`.
pub open spec fn key_external_ip() -> Seq<u8> {
    seq![
        'e' as u8, 'x' as u8, 't' as u8, 'e' as u8, 'r' as u8, 'n' as u8, 'a' as u8, 'l' as u8,
        'I' as u8, 'p' as u8,
    ]
}

/// The raw bytes of the key `externalVpnIp`.
pub open spec fn key_external_vpn_ip() -> Seq<u8> {
    seq![
        'e' as u8, 'x' as u8, 't' as u8, 'e' as u8, 'r' as u8, 'n' as u8, 'a' as u8, 'l' as u8,
        'V' as u8, 'p' as u8, 'n' as u8, 'I' as u8, 'p' as u8,
    ]
}

/// The quoted string a connection-state variant is carried as on the wire.
pub open spec fn connection_state_raw(c: ConnectionState) -> Seq<u8> {
    seq![QUOTE] + connection_state_name(c) + seq![QUOTE]
}

/// The name of a connection-state variant.
pub open spec fn connection_state_name(c: ConnectionState) -> Seq<u8> {
    match c {
        ConnectionState::Disconnected => seq![
            'D' as u8, 'i' as u8, 's' as u8, 'c' as u8, 'o' as u8, 'n' as u8, 'n' as u8, 'e' as u8,
            'c' as u8, 't' as u8, 'e' as u8, 'd' as u8,
        ],
        ConnectionState::Connecting => seq![
            'C' as u8, 'o' as u8, 'n' as u8, 'n' as u8, 'e' as u8, 'c' as u8, 't' as u8, 'i' as u8,
            'n' as u8, 'g' as u8,
        ],
        ConnectionState::Reconnecting => seq![
            'R' as u8, 'e' as u8, 'c' as u8, 'o' as u8, 'n' as u8, 'n' as u8, 'e' as u8, 'c' as u8,
            't' as u8, 'i' as u8, 'n' as u8, 'g' as u8,
        ],
        ConnectionState::DisconnectingToReconnect => seq![
            'D' as u8, 'i' as u8, 's' as u8, 'c' as u8, 'o' as u8, 'n' as u8, 'n' as u8, 'e' as u8,
            'c' as u8, 't' as u8, 'i' as u8, 'n' as u8, 'g' as u8, 'T' as u8, 'o' as u8, 'R' as u8,
            'e' as u8, 'c' as u8, 'o' as u8, 'n' as u8, 'n' as u8, 'e' as u8, 'c' as u8, 't' as u8,
        ],
        ConnectionState::Interrupted => seq![
            'I' as u8, 'n' as u8, 't' as u8, 'e' as u8, 'r' as u8, 'r' as u8, 'u' as u8, 'p' as u8,
            't' as u8, 'e' as u8, 'd' as u8,
        ],
        ConnectionState::Connected => seq![
            'C' as u8, 'o' as u8, 'n' as u8, 'n' as u8, 'e' as u8, 'c' as u8, 't' as u8, 'e' as u8,
            'd' as u8,
        ],
        ConnectionState::Disconnecting => seq![
            'D' as u8, 'i' as u8, 's' as u8, 'c' as u8, 'o' as u8, 'n' as u8, 'n' as u8, 'e' as u8,
            'c' as u8, 't' as u8, 'i' as u8, 'n' as u8, 'g' as u8,
        ],
    }
}

/// The connection state a raw value denotes, if it is one of the seven
/// known quoted names.
pub open spec fn connection_state_of(raw: Seq<u8>) -> Option<ConnectionState> {
    if raw == connection_state_raw(ConnectionState::Disconnected) {
        Some(ConnectionState::Disconnected)
    } else if raw == connection_state_raw(ConnectionState::Connecting) {
        Some(ConnectionState::Connecting)
    } else if raw == connection_state_raw(ConnectionState::Reconnecting) {
        Some(ConnectionState::Reconnecting)
    } else if raw == connection_state_raw(ConnectionState::DisconnectingToReconnect) {
        Some(ConnectionState::DisconnectingToReconnect)
    } else if raw == connection_state_raw(ConnectionState::Interrupted) {
        Some(ConnectionState::Interrupted)
    } else if raw == connection_state_raw(ConnectionState::Connected) {
        Some(ConnectionState::Connected)
    } else if raw == connection_state_raw(ConnectionState::Disconnecting) {
        Some(ConnectionState::Disconnecting)
    } else {
        None
    }
}

/// The mirror's required-field contract: the three fields the consumer
/// reads must be present, and the connection state must be a known
/// variant.
pub open spec fn state_doc_ok(ms: Seq<(Seq<u8>, Seq<u8>)>) -> bool {
    &&& match lookup(ms, key_connection_state()) {
        Some(raw) => connection_state_of(raw) is Some,
        None => false,
    }
    &&& lookup(ms, key_external_ip()) is Some
    &&& lookup(ms, key_external_vpn_ip()) is Some
}

/// Failures of state reconciliation.
#[derive(Debug, Clone, Copy, PartialEq, Eq, Structural)]
pub enum ReconcileError {
    /// The first state document did not carry every required field.
    IncompleteInitialState,
    /// A merge left the mirror without a required field; the mirror keeps
    /// its pre-merge value.
    SchemaMismatch,
}

/// The consumer-side reconstructed daemon state, kept current by shallow
/// merges of the daemon's partial state documents.
pub struct DaemonStateMirror {
    /// The full state as a shallow document; satisfies the required-field
    /// contract.
    pub doc: JsonDoc,
}

impl DaemonStateMirror {
    /// The mirror's well-formedness: its document satisfies the
    /// required-field contract.
    pub open spec fn wf(&self) -> bool {
        state_doc_ok(self.doc.entries())
    }
}

} // verus!

verus! {

/// The raw bytes of `connectionState`.
pub fn key_connection_state_x() -> (r: Vec<u8>)
    ensures
        r@ == key_connection_state(),
{
    let mut r: Vec<u8> = Vec::new();
    r.push('c' as u8);
    r.push('o' as u8);
    r.push('n' as u8);
    r.push('n' as u8);
    r.push('e' as u8);
    r.push('c' as u8);
    r.push('t' as u8);
    r.push('i' as u8);
    r.push('o' as u8);
    r.push('n' as u8);
    r.push('S' as u8);
    r.push('t' as u8);
    r.push('a' as u8);
    r.push('t' as u8);
    r.push('e' as u8);
    proof {
        assert(r@ =~= key_connection_state());
    }
    r
}

/// The raw bytes of `externalIp`.
pub fn key_external_ip_x() -> (r: Vec<u8>)
    ensures
        r@ == key_external_ip(),
{
    let mut r: Vec<u8> = Vec::new();
    r.push('e' as u8);
    r.push('x' as u8);
    r.push('t' as u8);
    r.push('e' as u8);
    r.push('r' as u8);
    r.push('n' as u8);
    r.push('a' as u8);
    r.push('l' as u8);
    r.push('I' as u8);
    r.push('p' as u8);
    proof {
        assert(r@ =~= key_external_ip());
    }
    r
}

/// The raw bytes of `externalVpnIp`.
pub fn key_external_vpn_ip_x() -> (r: Vec<u8>)
    ensures
        r@ == key_external_vpn_ip(),
{
    let mut r: Vec<u8> = Vec::new();
    r.push('e' as u8);
    r.push('x' as u8);
    r.push('t' as u8);
    r.push('e' as u8);
    r.push('r' as u8);
    r.push('n' as u8);
    r.push('a' as u8);
    r.push('l' as u8);
    r.push('V' as u8);
    r.push('p' as u8);
    r.push('n' as u8);
    r.push('I' as u8);
    r.push('p' as u8);
    proof {
        assert(r@ =~= key_external_vpn_ip());
    }
    r
}

/// The quoted wire form of a connection-state variant's name.
pub fn connection_state_raw_x(c: ConnectionState) -> (r: Vec<u8>)
    ensures
        r@ == connection_state_raw(c),
{
    let mut r: Vec<u8> = Vec::new();
    r.push(QUOTE);
    match c {
        ConnectionState::Disconnected => {
            r.push('D' as u8);
            r.push('i' as u8);
            r.push('s' as u8);
            r.push('c' as u8);
            r.push('o' as u8);
            r.push('n' as u8);
            r.push('n' as u8);
            r.push('e' as u8);
            r.push('c' as u8);
            r.push('t' as u8);
            r.push('e' as u8);
            r.push('d' as u8);
        },
        ConnectionState::Connecting => {
            r.push('C' as u8);
            r.push('o' as u8);
            r.push('n' as u8);
            r.push('n' as u8);
            r.push('e' as u8);
            r.push('c' as u8);
            r.push('t' as u8);
            r.push('i' as u8);
            r.push('n' as u8);
            r.push('g' as u8);
        },
        ConnectionState::Reconnecting => {
            r.push('R' as u8);
            r.push('e' as u8);
            r.push('c' as u8);
            r.push('o' as u8);
            r.push('n' as u8);
            r.push('n' as u8);
            r.push('e' as u8);
            r.push('c' as u8);
            r.push('t' as u8);
            r.push('i' as u8);
            r.push('n' as u8);
            r.push('g' as u8);
        },
        ConnectionState::DisconnectingToReconnect => {
            r.push('D' as u8);
            r.push('i' as u8);
            r.push('s' as u8);
            r.push('c' as u8);
            r.push('o' as u8);
            r.push('n' as u8);
            r.push('n' as u8);
            r.push('e' as u8);
            r.push('c' as u8);
            r.push('t' as u8);
            r.push('i' as u8);
            r.push('n' as u8);
            r.push('g' as u8);
            r.push('T' as u8);
            r.push('o' as u8);
            r.push('R' as u8);
            r.push('e' as u8);
            r.push('c' as u8);
            r.push('o' as u8);
            r.push('n' as u8);
            r.push('n' as u8);
            r.push('e' as u8);
            r.push('c' as u8);
            r.push('t' as u8);
        },
        ConnectionState::Interrupted => {
            r.push('I' as u8);
            r.push('n' as u8);
            r.push('t' as u8);
            r.push('e' as u8);
            r.push('r' as u8);
            r.push('r' as u8);
            r.push('u' as u8);
            r.push('p' as u8);
            r.push('t' as u8);
            r.push('e' as u8);
            r.push('d' as u8);
        },
        ConnectionState::Connected => {
            r.push('C' as u8);
            r.push('o' as u8);
            r.push('n' as u8);
            r.push('n' as u8);
            r.push('e' as u8);
            r.push('c' as u8);
            r.push('t' as u8);
            r.push('e' as u8);
            r.push('d' as u8);
        },
        ConnectionState::Disconnecting => {
            r.push('D' as u8);
            r.push('i' as u8);
            r.push('s' as u8);
            r.push('c' as u8);
            r.push('o' as u8);
            r.push('n' as u8);
            r.push('n' as u8);
            r.push('e' as u8);
            r.push('c' as u8);
            r.push('t' as u8);
            r.push('i' as u8);
            r.push('n' as u8);
            r.push('g' as u8);
        },
    }
    r.push(QUOTE);
    proof {
        assert(r@ =~= connection_state_raw(c));
    }
    r
}

} // verus!

verus! {

/// The connection state a raw value denotes, if any.
pub fn parse_connection_state(raw: &Vec<u8>) -> (r: Option<ConnectionState>)
    ensures
        r == connection_state_of(raw@),
{
    let cands: [ConnectionState; 7] = [
        ConnectionState::Disconnected,
        ConnectionState::Connecting,
        ConnectionState::Reconnecting,
        ConnectionState::DisconnectingToReconnect,
        ConnectionState::Interrupted,
        ConnectionState::Connected,
        ConnectionState::Disconnecting,
    ];
    let mut i: usize = 0;
    while i < 7
        invariant
            i <= 7,
            cands@ =~= seq![
                ConnectionState::Disconnected,
                ConnectionState::Connecting,
                ConnectionState::Reconnecting,
                ConnectionState::DisconnectingToReconnect,
                ConnectionState::Interrupted,
                ConnectionState::Connected,
                ConnectionState::Disconnecting,
            ],
            forall|j: int| 0 <= j < i ==> raw@ != connection_state_raw(#[trigger] cands@[j]),
        decreases 7 - i,
    {
        let cand = cands[i];
        let expect = connection_state_raw_x(cand);
        if crate::json::bytes_eq(raw, &expect) {
            return Some(cand);
        }
        i = i + 1;
    }
    None
}

/// Whether a state document satisfies the mirror's required-field
/// contract.
pub fn state_doc_ok_x(d: &JsonDoc) -> (r: bool)
    ensures
        r == state_doc_ok(d.entries()),
{
    let kc = key_connection_state_x();
    let cs_ok = match d.get(&kc) {
        Some(raw) => parse_connection_state(raw).is_some(),
        None => false,
    };
    if !cs_ok {
        return false;
    }
    let ke = key_external_ip_x();
    if d.get(&ke).is_none() {
        return false;
    }
    let kv = key_external_vpn_ip_x();
    if d.get(&kv).is_none() {
        return false;
    }
    true
}

impl DaemonStateMirror {
    /// The connection state the mirror currently holds.
    pub fn connection_state(&self) -> (r: ConnectionState)
        requires
            self.wf(),
        ensures
            match lookup(self.doc.entries(), key_connection_state()) {
                Some(raw) => connection_state_of(raw) == Some(r),
                None => false,
            },
    {
        let kc = key_connection_state_x();
        match self.doc.get(&kc) {
            Some(raw) => match parse_connection_state(raw) {
                Some(c) => c,
                None => {
                    proof {
                        assert(false);
                    }
                    ConnectionState::Disconnected
                },
            },
            None => {
                proof {
                    assert(false);
                }
                ConnectionState::Disconnected
            },
        }
    }
}

impl DaemonStateMirror {
    /// The raw value of the `externalIp` field: the daemon's dotted-quad
    /// string, quoted, or the quoted empty string for no address.
    pub fn external_ip_raw(&self) -> (r: &Vec<u8>)
        requires
            self.wf(),
        ensures
            lookup(self.doc.entries(), key_external_ip()) == Some(r@),
    {
        let ke = key_external_ip_x();
        match self.doc.get(&ke) {
            Some(raw) => raw,
            None => {
                proof {
                    assert(false);
                }
                &self.doc.members[0].1
            },
        }
    }

    /// The raw value of the `externalVpnIp` field.
    pub fn external_vpn_ip_raw(&self) -> (r: &Vec<u8>)
        requires
            self.wf(),
        ensures
            lookup(self.doc.entries(), key_external_vpn_ip()) == Some(r@),
    {
        let kv = key_external_vpn_ip_x();
        match self.doc.get(&kv) {
            Some(raw) => raw,
            None => {
                proof {
                    assert(false);
                }
                &self.doc.members[0].1
            },
        }
    }
}

/// Applies one partial update to the mirror.
///
/// Without a state document the mirror is unchanged. The first state
/// document populates the mirror (later duplicates of a key overwriting
/// earlier ones) and must satisfy the required-field contract in full, or
/// `IncompleteInitialState` is returned and the mirror stays absent. A
/// later state document is merged by overwriting whole top-level keys; if
/// the merged document would break the contract, `SchemaMismatch` is
/// returned and the mirror keeps its pre-merge value. The `account` and
/// `data` documents are carried but never merged.
pub fn apply(mirror: &mut Option<DaemonStateMirror>, update: &DataEventParam) -> (r: Result<
    (),
    ReconcileError,
>)
    requires
        match *old(mirror) {
            Some(m) => m.wf(),
            None => true,
        },
    ensures
        match *final(mirror) {
            Some(m) => m.wf(),
            None => true,
        },
        match update.state {
            None => r matches Ok(_) && *final(mirror) == *old(mirror),
            Some(ref upd) => {
                let base_entries = match *old(mirror) {
                    None => Seq::<(Seq<u8>, Seq<u8>)>::empty(),
                    Some(ref base) => base.doc.entries(),
                };
                let merged = merge_entries(base_entries, upd.entries());
                if state_doc_ok(merged) {
                    &&& r matches Ok(_)
                    &&& *final(mirror) matches Some(m) && m.doc.entries() == merged
                } else {
                    &&& r == Err::<(), ReconcileError>(
                        match *old(mirror) {
                            None => ReconcileError::IncompleteInitialState,
                            Some(_) => ReconcileError::SchemaMismatch,
                        },
                    )
                    &&& *final(mirror) == *old(mirror)
                }
            },
        },
{
    let upd = match update.state {
        Some(ref u) => u,
        None => {
            return Ok(());
        },
    };
    match mirror {
        None => {
            let fresh = merge_docs(&JsonDoc::new(), upd);
            if state_doc_ok_x(&fresh) {
                *mirror = Some(DaemonStateMirror { doc: fresh });
                Ok(())
            } else {
                Err(ReconcileError::IncompleteInitialState)
            }
        },
        Some(base) => {
            let merged = merge_docs(&base.doc, upd);
            if state_doc_ok_x(&merged) {
                *mirror = Some(DaemonStateMirror { doc: merged });
                Ok(())
            } else {
                Err(ReconcileError::SchemaMismatch)
            }
        },
    }
}

} // verus!
