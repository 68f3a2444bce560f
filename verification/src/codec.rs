//! The binary frame codec.
//!
//! A frame is a 12-byte header followed by a payload: 4 magic bytes, two
//! little-endian 16-bit words carrying one byte each of the sequence number
//! (shifted left by 4 bits, the low 4 bits of each word being reserved), and
//! a little-endian 32-bit payload length. A zero length marks a pure
//! acknowledgement; any other length must lie in `[2, 1048576]`.

use vstd::prelude::*;

verus! {

/// Largest payload a frame may carry, in bytes.
pub const MAX_PAYLOAD_LEN: u32 = 1048576;

/// Smallest non-zero payload a frame may carry, in bytes.
pub const MIN_PAYLOAD_LEN: u32 = 2;

/// Errors of the transport and framing layer.
///
/// `BadMagic` and `InvalidPayloadSize` are framing faults and fatal to the
/// connection; `WouldBlock` is the transient "no message right now" signal
/// of a non-blocking poll; `UnexpectedEof` and `ConnectionLost` are fatal
/// stream conditions.
#[derive(Debug, Clone, Copy, PartialEq, Eq, Structural)]
pub enum IpcError {
    /// The first four header bytes were not the magic constant.
    BadMagic,
    /// A non-zero declared payload length outside `[2, 1048576]`.
    InvalidPayloadSize,
    /// No bytes were available on the first read of a non-blocking poll.
    WouldBlock,
    /// The stream closed in the middle of a frame.
    UnexpectedEof,
    /// Any other stream fault; the connection cannot be trusted afterwards.
    ConnectionLost,
}

/// The four magic bytes that start every frame.
pub open spec fn magic_bytes() -> Seq<u8> {
    seq![0xffu8, 0xacu8, 0xceu8, 0x56u8]
}

/// Whether a payload length is admissible for a frame: zero (a pure
/// acknowledgement) or within the valid message range.
pub open spec fn valid_payload_len(len: nat) -> bool {
    len == 0 || (MIN_PAYLOAD_LEN <= len && len <= MAX_PAYLOAD_LEN)
}

/// The 12 header bytes for a frame with the given sequence number and
/// declared payload length.
pub open spec fn header_bytes(s: u16, len: u32) -> Seq<u8> {
    magic_bytes() + seq![
        (((s as nat) % 16) * 16) as u8,
        (((s as nat) % 256) / 16) as u8,
        ((((s as nat) / 256) % 16) * 16) as u8,
        (((s as nat) / 256) / 16) as u8,
        ((len as nat) % 256) as u8,
        (((len as nat) / 256) % 256) as u8,
        (((len as nat) / 65536) % 256) as u8,
        ((len as nat) / 16777216) as u8,
    ]
}

/// The whole wire image of a frame: header followed by payload.
pub open spec fn frame_bytes(s: u16, payload: Seq<u8>) -> Seq<u8> {
    header_bytes(s, payload.len() as u32) + payload
}

/// The sequence number carried by header bytes 4..8: bits 4-11 of each
/// little-endian word give one byte of the value.
pub open spec fn seq_of_header(b4: u8, b5: u8, b6: u8, b7: u8) -> u16 {
    (((((b4 as nat) + 256 * (b5 as nat)) / 16) % 256)
        + 256 * (((((b6 as nat) + 256 * (b7 as nat)) / 16) % 256))) as u16
}

/// The declared payload length carried by header bytes 8..12,
/// little-endian.
pub open spec fn len_of_header(b8: u8, b9: u8, b10: u8, b11: u8) -> u32 {
    ((b8 as nat) + 256 * (b9 as nat) + 65536 * (b10 as nat) + 16777216 * (b11 as nat)) as u32
}

/// What decoding a 12-byte header yields: the sequence number and declared
/// length, or the framing fault.
pub open spec fn spec_decode_header(h: Seq<u8>) -> Result<(u16, u32), IpcError>
    recommends
        h.len() == 12,
{
    if h.subrange(0, 4) != magic_bytes() {
        Err(IpcError::BadMagic)
    } else {
        let len = len_of_header(h[8], h[9], h[10], h[11]);
        if !valid_payload_len(len as nat) {
            Err(IpcError::InvalidPayloadSize)
        } else {
            Ok((seq_of_header(h[4], h[5], h[6], h[7]), len))
        }
    }
}

/// What decoding a whole in-memory frame yields.
pub open spec fn spec_decode_frame(b: Seq<u8>) -> Result<(u16, Seq<u8>), IpcError> {
    if b.len() < 12 {
        Err(IpcError::UnexpectedEof)
    } else {
        match spec_decode_header(b.subrange(0, 12)) {
            Err(e) => Err(e),
            Ok((s, len)) => if b.len() < 12 + len {
                Err(IpcError::UnexpectedEof)
            } else {
                Ok((s, b.subrange(12, 12 + len)))
            },
        }
    }
}

/// Encodes the 12-byte header for a frame.
pub fn encode_header(s: u16, len: u32) -> (r: Vec<u8>)
    ensures
        r@ == header_bytes(s, len),
{
    let mut r: Vec<u8> = Vec::new();
    r.push(0xff);
    r.push(0xac);
    r.push(0xce);
    r.push(0x56);
    r.push((((s as u32) % 16) * 16) as u8);
    r.push((((s as u32) % 256) / 16) as u8);
    r.push(((((s as u32) / 256) % 16) * 16) as u8);
    r.push((((s as u32) / 256) / 16) as u8);
    r.push((len % 256) as u8);
    r.push(((len / 256) % 256) as u8);
    r.push(((len / 65536) % 256) as u8);
    r.push((len / 16777216) as u8);
    proof {
        assert(r@ =~= header_bytes(s, len));
    }
    r
}

/// Encodes a frame: the header followed by the payload.
///
/// Fails with `InvalidPayloadSize` exactly when the payload is non-empty and
/// its length lies outside `[2, 1048576]`.
pub fn encode(s: u16, payload: &Vec<u8>) -> (r: Result<Vec<u8>, IpcError>)
    requires
        s <= 4095,
    ensures
        valid_payload_len(payload@.len()) ==> (r matches Ok(v) && v@ == frame_bytes(
            s,
            payload@,
        )),
        !valid_payload_len(payload@.len()) ==> r == Err::<Vec<u8>, IpcError>(
            IpcError::InvalidPayloadSize,
        ),
{
    if payload.len() != 0 && (payload.len() < MIN_PAYLOAD_LEN as usize || payload.len()
        > MAX_PAYLOAD_LEN as usize) {
        return Err(IpcError::InvalidPayloadSize);
    }
    let mut r = encode_header(s, payload.len() as u32);
    let mut i: usize = 0;
    while i < payload.len()
        invariant
            i <= payload@.len(),
            r@ == header_bytes(s, payload@.len() as u32) + payload@.subrange(0, i as int),
        decreases payload@.len() - i,
    {
        r.push(payload[i]);
        i = i + 1;
        proof {
            assert(r@ =~= header_bytes(s, payload@.len() as u32) + payload@.subrange(0, i as int));
        }
    }
    proof {
        assert(payload@.subrange(0, payload@.len() as int) =~= payload@);
    }
    Ok(r)
}

/// Decodes the 12-byte header of a frame.
pub fn decode_header(h: &Vec<u8>) -> (r: Result<(u16, u32), IpcError>)
    requires
        h@.len() == 12,
    ensures
        r == spec_decode_header(h@),
{
    if !(h[0] == 0xff && h[1] == 0xac && h[2] == 0xce && h[3] == 0x56) {
        proof {
            assert(h@.subrange(0, 4) != magic_bytes()) by {
                if h@.subrange(0, 4) == magic_bytes() {
                    assert(h@.subrange(0, 4)[0] == 0xff);
                    assert(h@.subrange(0, 4)[1] == 0xac);
                    assert(h@.subrange(0, 4)[2] == 0xce);
                    assert(h@.subrange(0, 4)[3] == 0x56);
                }
            }
        }
        return Err(IpcError::BadMagic);
    }
    proof {
        assert(h@.subrange(0, 4) =~= magic_bytes());
    }
    let len: u32 = (h[8] as u32) + 256 * (h[9] as u32) + 65536 * (h[10] as u32) + 16777216 * (
    h[11] as u32);
    if len != 0 && (len < MIN_PAYLOAD_LEN || len > MAX_PAYLOAD_LEN) {
        return Err(IpcError::InvalidPayloadSize);
    }
    let w0: u32 = (h[4] as u32) + 256 * (h[5] as u32);
    let w1: u32 = (h[6] as u32) + 256 * (h[7] as u32);
    let s: u16 = (((w0 / 16) % 256) + 256 * ((w1 / 16) % 256)) as u16;
    Ok((s, len))
}

/// Decodes a whole in-memory frame: checks the magic and the declared
/// length, then takes exactly that many payload bytes.
///
/// Fails with `BadMagic` exactly when the first four bytes differ from the
/// magic constant, and with `InvalidPayloadSize` exactly when the declared
/// length is non-zero and outside `[2, 1048576]`.
pub fn decode(b: &Vec<u8>) -> (r: Result<(u16, Vec<u8>), IpcError>)
    ensures
        match r {
            Ok((s, p)) => spec_decode_frame(b@) == Ok::<_, IpcError>((s, p@)),
            Err(e) => spec_decode_frame(b@) == Err::<(u16, Seq<u8>), _>(e),
        },
        b@.len() >= 12 && b@.subrange(0, 4) != magic_bytes() ==> r == Err::<(u16, Vec<u8>), _>(
            IpcError::BadMagic,
        ),
{
    if b.len() < 12 {
        return Err(IpcError::UnexpectedEof);
    }
    let mut h: Vec<u8> = Vec::new();
    let mut i: usize = 0;
    while i < 12
        invariant
            i <= 12,
            b@.len() >= 12,
            h@ == b@.subrange(0, i as int),
        decreases 12 - i,
    {
        h.push(b[i]);
        i = i + 1;
        proof {
            assert(h@ =~= b@.subrange(0, i as int));
        }
    }
    proof {
        assert(h@.subrange(0, 4) =~= b@.subrange(0, 4));
    }
    let (s, len) = match decode_header(&h) {
        Ok(v) => v,
        Err(e) => {
            return Err(e);
        },
    };
    if (b.len() - 12) < len as usize {
        return Err(IpcError::UnexpectedEof);
    }
    let mut p: Vec<u8> = Vec::new();
    let mut j: usize = 0;
    while j < len as usize
        invariant
            j <= len,
            len <= MAX_PAYLOAD_LEN,
            b@.len() >= 12 + len,
            p@ == b@.subrange(12, 12 + j as int),
        decreases len - j,
    {
        p.push(b[12 + j]);
        j = j + 1;
        proof {
            assert(p@ =~= b@.subrange(12, 12 + j as int));
        }
    }
    Ok((s, p))
}

/// Sequence numbers survive the split across the two header words: for any
/// 12-bit value, packing then unpacking bits 4-11 of the two words gives the
/// value back.
pub proof fn lemma_seq_round_trip(s: u16)
    ensures
        seq_of_header(
            header_bytes(s, 0)[4],
            header_bytes(s, 0)[5],
            header_bytes(s, 0)[6],
            header_bytes(s, 0)[7],
        ) == s,
{
    let n = s as nat;
    let b4 = ((n % 16) * 16) as u8;
    let b5 = ((n % 256) / 16) as u8;
    let b6 = (((n / 256) % 16) * 16) as u8;
    let b7 = ((n / 256) / 16) as u8;
    assert((b4 as nat) + 256 * (b5 as nat) == 16 * (n % 256)) by (nonlinear_arith)
        requires
            b4 == ((n % 16) * 16) as u8,
            b5 == ((n % 256) / 16) as u8,
    ;
    assert((16 * (n % 256)) / 16 == n % 256) by (nonlinear_arith);
    assert((b6 as nat) + 256 * (b7 as nat) == 16 * (n / 256)) by (nonlinear_arith)
        requires
            n < 65536,
            b6 == (((n / 256) % 16) * 16) as u8,
            b7 == ((n / 256) / 16) as u8,
    ;
    assert((16 * (n / 256)) / 16 == n / 256) by (nonlinear_arith);
    assert((n % 256) % 256 == n % 256);
    assert((n / 256) % 256 == n / 256) by (nonlinear_arith)
        requires
            n < 65536,
    ;
    assert(n % 256 + 256 * (n / 256) == n) by (nonlinear_arith);
}

/// The declared length survives its little-endian encoding.
pub proof fn lemma_len_round_trip(len: u32)
    ensures
        len_of_header(
            header_bytes(0, len)[8],
            header_bytes(0, len)[9],
            header_bytes(0, len)[10],
            header_bytes(0, len)[11],
        ) == len,
{
    let n = len as nat;
    assert(n % 256 + 256 * ((n / 256) % 256) + 65536 * ((n / 65536) % 256) + 16777216 * (n
        / 16777216) == n) by (nonlinear_arith)
        requires
            n < 4294967296,
    ;
}

/// The frame codec round-trips: decoding the encoding of any 12-bit
/// sequence number and any admissible payload gives both back unchanged.
pub proof fn lemma_frame_round_trip(s: u16, payload: Seq<u8>)
    requires
        s <= 4095,
        valid_payload_len(payload.len()),
    ensures
        spec_decode_frame(frame_bytes(s, payload)) == Ok::<_, IpcError>((s, payload)),
{
    let b = frame_bytes(s, payload);
    let len = payload.len() as u32;
    assert(b.subrange(0, 12) =~= header_bytes(s, len));
    let h = header_bytes(s, len);
    assert(h.subrange(0, 4) =~= magic_bytes());
    lemma_len_round_trip(len);
    assert(header_bytes(0, len)[8] == h[8]);
    assert(header_bytes(0, len)[9] == h[9]);
    assert(header_bytes(0, len)[10] == h[10]);
    assert(header_bytes(0, len)[11] == h[11]);
    lemma_seq_round_trip(s);
    assert(header_bytes(s, 0)[4] == h[4]);
    assert(header_bytes(s, 0)[5] == h[5]);
    assert(header_bytes(s, 0)[6] == h[6]);
    assert(header_bytes(s, 0)[7] == h[7]);
    assert(spec_decode_header(b.subrange(0, 12)) == Ok::<_, IpcError>((s, len)));
    assert(b.subrange(12, 12 + len as int) =~= payload);
}

} // verus!

