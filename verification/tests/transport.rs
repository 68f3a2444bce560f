//! Transport behavior over scripted streams: exact-length reads with
//! retry, acknowledgement bookkeeping, framed sends, and the connection
//! singleton.

use pia_ipc::codec::{encode, encode_header, IpcError};
use pia_ipc::jsonrpc::{
    read_exact, release_receiver, release_sender, take_connection, ConnectionInfo,
    TakeConnectionError,
};
use pia_ipc::stream::{ScriptStep, ScriptedStream, VecSink};

fn stream(steps: Vec<ScriptStep>) -> ScriptedStream {
    ScriptedStream::new(steps)
}

#[test]
fn read_exact_would_block_before_any_byte() {
    let mut s = stream(vec![
        ScriptStep::WouldBlock,
        ScriptStep::Bytes(b"abcd".to_vec()),
    ]);
    // Non-blocking first read: the would-block is surfaced at once.
    assert_eq!(read_exact(&mut s, 4, false, true), Err(IpcError::WouldBlock));
    // The data is still there afterwards.
    assert_eq!(read_exact(&mut s, 4, false, true), Ok(b"abcd".to_vec()));
}

#[test]
fn read_exact_retries_mid_frame_would_block() {
    let mut s = stream(vec![
        ScriptStep::Bytes(b"ab".to_vec()),
        ScriptStep::WouldBlock,
        ScriptStep::Bytes(b"cd".to_vec()),
    ]);
    // Once part of the frame arrived, a would-block is retried even in
    // non-blocking mode, and the read completes.
    assert_eq!(read_exact(&mut s, 4, false, true), Ok(b"abcd".to_vec()));
}

#[test]
fn read_exact_retries_interrupted_and_splits_chunks() {
    let mut s = stream(vec![
        ScriptStep::Interrupted,
        ScriptStep::Bytes(b"abcdef".to_vec()),
    ]);
    assert_eq!(read_exact(&mut s, 2, true, true), Ok(b"ab".to_vec()));
    assert_eq!(read_exact(&mut s, 4, true, true), Ok(b"cdef".to_vec()));
}

#[test]
fn read_exact_reports_eof_and_fatal() {
    let mut s = stream(vec![ScriptStep::Closed]);
    assert_eq!(read_exact(&mut s, 1, true, true), Err(IpcError::UnexpectedEof));
    let mut s2 = stream(vec![ScriptStep::Fatal]);
    assert_eq!(read_exact(&mut s2, 1, true, true), Err(IpcError::ConnectionLost));
}

#[test]
fn poll_consumes_ack_frames_and_updates_last_ack() {
    // An empty frame with sequence 9, then a real frame with sequence 10.
    let ack_frame = encode_header(9, 0);
    let payload = b"{}".to_vec();
    let data_frame = encode(10, &payload).unwrap();
    let mut wire = ack_frame.clone();
    wire.extend_from_slice(&data_frame);
    let mut info = ConnectionInfo::new();
    let (mut rx, _tx) = take_connection(
        &mut info,
        stream(vec![ScriptStep::Bytes(wire)]),
        VecSink::new(),
        VecSink::new(),
    )
    .unwrap();
    assert_eq!(rx.last_server_ack, 0);
    let got = rx.poll().expect("payload");
    // The pure acknowledgement was never surfaced; the payload frame was.
    assert_eq!(got, payload);
    assert_eq!(rx.last_server_ack, 9);
    // Exactly one empty acknowledgement frame echoing sequence 10 was
    // written before the payload was returned.
    assert_eq!(rx.acks.data, encode_header(10, 0));
}

#[test]
fn poll_acks_echo_received_sequence_not_own_counter() {
    let payload = b"\"x\"".to_vec();
    let data_frame = encode(3000, &payload).unwrap();
    let mut info = ConnectionInfo::new();
    let (mut rx, _tx) = take_connection(
        &mut info,
        stream(vec![ScriptStep::Bytes(data_frame)]),
        VecSink::new(),
        VecSink::new(),
    )
    .unwrap();
    assert_eq!(rx.poll().unwrap(), payload);
    assert_eq!(rx.acks.data, encode_header(3000, 0));
    assert_eq!(rx.acks.data.len(), 12);
}

#[test]
fn poll_would_block_when_no_frame_started() {
    let mut info = ConnectionInfo::new();
    let (mut rx, _tx) = take_connection(
        &mut info,
        stream(vec![ScriptStep::WouldBlock]),
        VecSink::new(),
        VecSink::new(),
    )
    .unwrap();
    assert!(matches!(rx.poll(), Err(IpcError::WouldBlock)));
}

#[test]
fn poll_rejects_bad_magic() {
    let mut frame = encode(1, &b"{}".to_vec()).unwrap();
    frame[0] = 0x00;
    let mut info = ConnectionInfo::new();
    let (mut rx, _tx) = take_connection(
        &mut info,
        stream(vec![ScriptStep::Bytes(frame)]),
        VecSink::new(),
        VecSink::new(),
    )
    .unwrap();
    assert!(matches!(rx.poll(), Err(IpcError::BadMagic)));
}

#[test]
fn sender_frames_with_incrementing_sequence() {
    let mut info = ConnectionInfo::new();
    let (_rx, mut tx) = take_connection(
        &mut info,
        stream(vec![]),
        VecSink::new(),
        VecSink::new(),
    )
    .unwrap();
    assert_eq!(tx.last_send_seq, 0);
    let msg = b"{}".to_vec();
    tx.write(&msg).unwrap();
    assert_eq!(tx.last_send_seq, 1);
    tx.write(&msg).unwrap();
    assert_eq!(tx.last_send_seq, 2);
    let mut expected = encode(1, &msg).unwrap();
    expected.extend_from_slice(&encode(2, &msg).unwrap());
    assert_eq!(tx.out.data, expected);
    tx.flush().unwrap();
    assert_eq!(tx.out.data, expected);
}

#[test]
fn sender_sequence_wraps_at_4095() {
    let mut info = ConnectionInfo::new();
    let (_rx, mut tx) = take_connection(
        &mut info,
        stream(vec![]),
        VecSink::new(),
        VecSink::new(),
    )
    .unwrap();
    tx.last_send_seq = 4095;
    tx.write(&b"{}".to_vec()).unwrap();
    assert_eq!(tx.last_send_seq, 0);
}

#[test]
fn connection_is_a_singleton() {
    let mut info = ConnectionInfo::new();
    let first = take_connection(&mut info, stream(vec![]), VecSink::new(), VecSink::new());
    let (rx, tx) = first.unwrap();
    // A second acquisition while the first is live fails fast.
    match take_connection(&mut info, stream(vec![]), VecSink::new(), VecSink::new()) {
        Err(TakeConnectionError::AlreadyTaken) => {},
        _ => panic!("second acquisition must fail"),
    }
    // Releasing only one half is not enough.
    release_receiver(&mut info, rx);
    match take_connection(&mut info, stream(vec![]), VecSink::new(), VecSink::new()) {
        Err(TakeConnectionError::AlreadyTaken) => {},
        _ => panic!("one live half still blocks acquisition"),
    }
    // After both halves are gone, a third acquisition succeeds with both
    // counters reset to zero.
    release_sender(&mut info, tx);
    let (rx2, tx2) =
        take_connection(&mut info, stream(vec![]), VecSink::new(), VecSink::new()).unwrap();
    assert_eq!(rx2.last_server_ack, 0);
    assert_eq!(tx2.last_send_seq, 0);
}
