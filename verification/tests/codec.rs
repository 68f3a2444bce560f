//! Frame codec behavior: exact wire bytes, round trips, and framing
//! faults.

use pia_ipc::codec::{decode, encode, encode_header, IpcError};

fn frame(seq: u16, payload: &[u8]) -> Vec<u8> {
    encode(seq, &payload.to_vec()).expect("admissible payload")
}

#[test]
fn header_layout_is_bit_exact() {
    // Sequence 0x0ABC = low byte 0xBC, high byte 0x0A, each shifted left 4
    // bits in its own little-endian word; length 0x00010203 little-endian.
    let h = encode_header(0x0abc, 0x00010203);
    assert_eq!(
        h,
        vec![0xff, 0xac, 0xce, 0x56, 0xc0, 0x0b, 0xa0, 0x00, 0x03, 0x02, 0x01, 0x00]
    );
}

#[test]
fn round_trip_small_sequences() {
    for s in [0u16, 1, 7, 255, 256, 2048, 4095] {
        let payload = b"{}".to_vec();
        let bytes = frame(s, &payload);
        let (got_seq, got_payload) = decode(&bytes).expect("decodes");
        assert_eq!(got_seq, s);
        assert_eq!(got_payload, payload);
    }
}

#[test]
fn round_trip_empty_payload() {
    let bytes = frame(77, b"");
    let (s, p) = decode(&bytes).expect("decodes");
    assert_eq!(s, 77);
    assert!(p.is_empty());
}

#[test]
fn round_trip_largest_payload() {
    let payload = vec![0xabu8; 1_048_576];
    let bytes = frame(4095, &payload);
    let (s, p) = decode(&bytes).expect("decodes");
    assert_eq!(s, 4095);
    assert_eq!(p, payload);
}

#[test]
fn encode_rejects_length_one() {
    assert_eq!(
        encode(0, &vec![0x61]),
        Err(IpcError::InvalidPayloadSize)
    );
}

#[test]
fn encode_rejects_oversized_payload() {
    let payload = vec![0u8; 1_048_577];
    assert_eq!(encode(0, &payload), Err(IpcError::InvalidPayloadSize));
}

#[test]
fn decode_rejects_altered_magic() {
    let good = frame(5, b"{}");
    for i in 0..4 {
        let mut bad = good.clone();
        bad[i] ^= 0x01;
        assert_eq!(decode(&bad), Err(IpcError::BadMagic));
    }
}

#[test]
fn decode_rejects_bad_declared_length() {
    // A header declaring length 1 (non-zero, below the minimum).
    let h = encode_header(3, 1);
    assert_eq!(decode(&h), Err(IpcError::InvalidPayloadSize));
    let h2 = encode_header(3, 1_048_577);
    assert_eq!(decode(&h2), Err(IpcError::InvalidPayloadSize));
}

#[test]
fn decode_rejects_truncated_input() {
    let good = frame(5, b"{}");
    let short = good[..good.len() - 1].to_vec();
    assert_eq!(decode(&short), Err(IpcError::UnexpectedEof));
    let tiny = good[..4].to_vec();
    assert_eq!(decode(&tiny), Err(IpcError::UnexpectedEof));
}
