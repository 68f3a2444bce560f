//! Envelope encoding and decoding: exact command bytes, notification
//! parsing, malformed payloads, and the encode/decode round trip.

use pia_ipc::envelope::{decode_notification, encode_command, encode_data_envelope, EnvelopeError};
use pia_ipc::event::client::ClientEvent;
use pia_ipc::event::daemon::{DaemonEvent, DataEventParam};
use pia_ipc::json::parse_doc;

#[test]
fn command_envelopes_are_bit_exact() {
    assert_eq!(
        encode_command(ClientEvent::ConnectVPN),
        b"{\"jsonrpc\":\"2.0\",\"method\":\"connectVPN\"}".to_vec()
    );
    assert_eq!(
        encode_command(ClientEvent::DisconnectVPN),
        b"{\"jsonrpc\":\"2.0\",\"method\":\"disconnectVPN\"}".to_vec()
    );
}

#[test]
fn decodes_a_data_notification() {
    let payload = br#"{"jsonrpc":"2.0","method":"data","params":[{"state":{"connectionState":"Connected"},"account":{"active":true}}]}"#;
    let DaemonEvent::Data(update) = decode_notification(&payload.to_vec()).expect("decodes");
    let state = update.state.expect("state present");
    assert_eq!(
        state.get(&b"connectionState".to_vec()).unwrap(),
        &b"\"Connected\"".to_vec()
    );
    let account = update.account.expect("account present");
    assert_eq!(account.get(&b"active".to_vec()).unwrap(), &b"true".to_vec());
    assert!(update.data.is_none());
}

#[test]
fn null_and_absent_documents_decode_to_none() {
    let payload = br#"{"jsonrpc":"2.0","method":"data","params":[{"account":null}]}"#;
    let DaemonEvent::Data(update) = decode_notification(&payload.to_vec()).expect("decodes");
    assert!(update.account.is_none());
    assert!(update.data.is_none());
    assert!(update.state.is_none());
}

#[test]
fn rejects_malformed_envelopes() {
    let cases: [&[u8]; 7] = [
        b"not json at all",
        br#"{"jsonrpc":"1.0","method":"data","params":[{}]}"#,
        br#"{"method":"data","params":[{}]}"#,
        br#"{"jsonrpc":"2.0","method":"bogus","params":[{}]}"#,
        br#"{"jsonrpc":"2.0","method":"data"}"#,
        br#"{"jsonrpc":"2.0","method":"data","params":[{},{}]}"#,
        br#"{"jsonrpc":"2.0","method":"data","params":[{"state":7}]}"#,
    ];
    for c in cases {
        assert_eq!(
            decode_notification(&c.to_vec()),
            Err(EnvelopeError::MalformedEnvelope)
        );
    }
}

#[test]
fn notification_round_trips_through_the_wire_form() {
    let state = parse_doc(&br#"{"connectionState":"Connected","externalIp":"1.2.3.4"}"#.to_vec())
        .unwrap();
    let account = parse_doc(&br#"{"active":true,"plan":"monthly"}"#.to_vec()).unwrap();
    let original = DataEventParam { account: Some(account), data: None, state: Some(state) };
    let wire = encode_data_envelope(&original);
    let DaemonEvent::Data(decoded) = decode_notification(&wire).expect("round trips");
    assert_eq!(
        decoded.account.as_ref().map(|d| d.members.clone()),
        original.account.as_ref().map(|d| d.members.clone())
    );
    assert!(decoded.data.is_none());
    assert_eq!(
        decoded.state.as_ref().map(|d| d.members.clone()),
        original.state.as_ref().map(|d| d.members.clone())
    );
}
