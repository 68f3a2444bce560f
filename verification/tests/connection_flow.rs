//! The typed connection layer end to end over scripted streams.

use pia_ipc::codec::{encode, encode_header};
use pia_ipc::connection::{take_connection, PollError};
use pia_ipc::event::client::ClientEvent;
use pia_ipc::event::daemon::DaemonEvent;
use pia_ipc::jsonrpc::ConnectionInfo;
use pia_ipc::stream::{ScriptStep, ScriptedStream, VecSink};
use pia_ipc::IpcError;

#[test]
fn polls_a_decoded_event_and_acknowledges_it() {
    let envelope =
        br#"{"jsonrpc":"2.0","method":"data","params":[{"state":{"connectionState":"Connected"}}]}"#;
    let mut wire = encode_header(5, 0);
    wire.extend_from_slice(&encode(42, &envelope.to_vec()).unwrap());
    let mut info = ConnectionInfo::new();
    let (mut rx, _tx) = take_connection(
        &mut info,
        ScriptedStream::new(vec![ScriptStep::Bytes(wire)]),
        VecSink::new(),
        VecSink::new(),
    )
    .unwrap();
    let DaemonEvent::Data(update) = rx.poll().expect("event decoded");
    let state = update.state.expect("state present");
    assert_eq!(
        state.get(&b"connectionState".to_vec()).unwrap(),
        &b"\"Connected\"".to_vec()
    );
    // The pure ack updated the tracker; the data frame was acknowledged.
    assert_eq!(rx.inner.last_server_ack, 5);
    assert_eq!(rx.inner.acks.data, encode_header(42, 0));
}

#[test]
fn malformed_payload_is_returned_raw() {
    let junk = b"{\"jsonrpc\":\"2.0\",\"method\":\"nope\"}".to_vec();
    let wire = encode(7, &junk).unwrap();
    let mut info = ConnectionInfo::new();
    let (mut rx, _tx) = take_connection(
        &mut info,
        ScriptedStream::new(vec![ScriptStep::Bytes(wire)]),
        VecSink::new(),
        VecSink::new(),
    )
    .unwrap();
    match rx.poll() {
        Err(PollError::MalformedEnvelope(raw)) => assert_eq!(raw, junk),
        _ => panic!("expected the raw malformed payload back"),
    }
    // The frame was still acknowledged before decoding failed.
    assert_eq!(rx.inner.acks.data, encode_header(7, 0));
}

#[test]
fn would_block_maps_to_transport_error() {
    let mut info = ConnectionInfo::new();
    let (mut rx, _tx) = take_connection(
        &mut info,
        ScriptedStream::new(vec![ScriptStep::WouldBlock]),
        VecSink::new(),
        VecSink::new(),
    )
    .unwrap();
    assert!(matches!(rx.poll(), Err(PollError::Transport(IpcError::WouldBlock))));
}

#[test]
fn send_frames_the_command_envelope() {
    let mut info = ConnectionInfo::new();
    let (_rx, mut tx) = take_connection(
        &mut info,
        ScriptedStream::new(vec![]),
        VecSink::new(),
        VecSink::new(),
    )
    .unwrap();
    tx.send(ClientEvent::ConnectVPN).unwrap();
    let expected = encode(
        1,
        &b"{\"jsonrpc\":\"2.0\",\"method\":\"connectVPN\"}".to_vec(),
    )
    .unwrap();
    assert_eq!(tx.inner.out.data, expected);
    assert_eq!(tx.inner.last_send_seq, 1);
    tx.flush().unwrap();
}
