//! State reconciliation: first population, shallow merges, and refusal of
//! updates that would break the mirror's contract.

use pia_ipc::event::daemon::{ConnectionState, DataEventParam};
use pia_ipc::json::parse_doc;
use pia_ipc::reconcile::{apply, DaemonStateMirror, ReconcileError};

fn update_with_state(state_json: &[u8]) -> DataEventParam {
    DataEventParam {
        account: None,
        data: None,
        state: Some(parse_doc(&state_json.to_vec()).expect("state parses")),
    }
}

fn get(m: &DaemonStateMirror, key: &[u8]) -> Vec<u8> {
    m.doc.get(&key.to_vec()).expect("key present").clone()
}

#[test]
fn first_complete_state_populates_the_mirror() {
    let mut mirror: Option<DaemonStateMirror> = None;
    let u = update_with_state(
        br#"{"connectionState":"Disconnected","externalIp":"","externalVpnIp":""}"#,
    );
    apply(&mut mirror, &u).expect("initial state accepted");
    let m = mirror.as_ref().expect("mirror populated");
    assert_eq!(m.connection_state(), ConnectionState::Disconnected);
    assert_eq!(get(m, b"externalIp"), b"\"\"".to_vec());
    assert_eq!(m.external_ip_raw(), &b"\"\"".to_vec());
    assert_eq!(m.external_vpn_ip_raw(), &b"\"\"".to_vec());
}

#[test]
fn shallow_merge_changes_only_the_updated_key() {
    let mut mirror: Option<DaemonStateMirror> = None;
    apply(
        &mut mirror,
        &update_with_state(
            br#"{"connectionState":"Disconnected","externalIp":"","externalVpnIp":""}"#,
        ),
    )
    .unwrap();
    // A later update carrying only connectionState changes only it.
    apply(
        &mut mirror,
        &update_with_state(br#"{"connectionState":"Connected"}"#),
    )
    .unwrap();
    let m = mirror.as_ref().unwrap();
    assert_eq!(m.connection_state(), ConnectionState::Connected);
    assert_eq!(get(m, b"externalIp"), b"\"\"".to_vec());
    assert_eq!(get(m, b"externalVpnIp"), b"\"\"".to_vec());
}

#[test]
fn incomplete_initial_state_is_refused() {
    let mut mirror: Option<DaemonStateMirror> = None;
    let r = apply(
        &mut mirror,
        &update_with_state(br#"{"connectionState":"Disconnected","externalIp":""}"#),
    );
    assert_eq!(r, Err(ReconcileError::IncompleteInitialState));
    assert!(mirror.is_none());
}

#[test]
fn schema_breaking_merge_leaves_the_mirror_unchanged() {
    let mut mirror: Option<DaemonStateMirror> = None;
    apply(
        &mut mirror,
        &update_with_state(
            br#"{"connectionState":"Connected","externalIp":"\"1.2.3.4\"","externalVpnIp":""}"#,
        ),
    )
    .unwrap();
    let r = apply(
        &mut mirror,
        &update_with_state(br#"{"connectionState":"PoweredByGerbils"}"#),
    );
    assert_eq!(r, Err(ReconcileError::SchemaMismatch));
    let m = mirror.as_ref().unwrap();
    assert_eq!(m.connection_state(), ConnectionState::Connected);
}

#[test]
fn update_without_state_leaves_the_mirror_alone() {
    let mut mirror: Option<DaemonStateMirror> = None;
    let u = DataEventParam { account: None, data: None, state: None };
    apply(&mut mirror, &u).unwrap();
    assert!(mirror.is_none());
}

#[test]
fn all_connection_states_parse() {
    let names: [(&[u8], ConnectionState); 7] = [
        (b"Disconnected", ConnectionState::Disconnected),
        (b"Connecting", ConnectionState::Connecting),
        (b"Reconnecting", ConnectionState::Reconnecting),
        (b"DisconnectingToReconnect", ConnectionState::DisconnectingToReconnect),
        (b"Interrupted", ConnectionState::Interrupted),
        (b"Connected", ConnectionState::Connected),
        (b"Disconnecting", ConnectionState::Disconnecting),
    ];
    for (name, expect) in names {
        let mut json = b"{\"connectionState\":\"".to_vec();
        json.extend_from_slice(name);
        json.extend_from_slice(b"\",\"externalIp\":\"\",\"externalVpnIp\":\"\"}");
        let mut mirror: Option<DaemonStateMirror> = None;
        apply(&mut mirror, &update_with_state(&json)).expect("accepted");
        assert_eq!(mirror.unwrap().connection_state(), expect);
    }
}
