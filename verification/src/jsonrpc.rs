//! The frame-level transport: exact-length reads with retry, the
//! sequence/acknowledgement tracker, and the connection-singleton guard.
//!
//! Reading tolerates transient conditions: a would-block on the very first
//! attempt of a non-blocking read is handed to the caller, so a poll loop
//! can report "no message right now"; once any part of a frame has been
//! taken, a would-block only pauses and retries, and an interrupted read is
//! always retried. Every inbound empty frame is a pure acknowledgement: it
//! updates the last sequence number acknowledged by the peer and is never
//! surfaced. Every inbound non-empty frame is acknowledged by writing one
//! empty frame echoing the received sequence number before the payload is
//! returned.

use vstd::prelude::*;

use crate::codec::{
    decode_header, encode, encode_header, frame_bytes, header_bytes, spec_decode_header, IpcError,
    MAX_PAYLOAD_LEN, MIN_PAYLOAD_LEN,
};
use crate::stream::{wf_events, InputStream, OutputStream, ReadChunk, ReadEvent};

verus! {

/// What an exact-length read of `need` bytes returns and leaves pending,
/// given the stream's events. `block` is the caller's choice of blocking
/// semantics and `first` whether no read has been attempted yet within this
/// operation.
pub open spec fn drain(evs: Seq<ReadEvent>, need: nat, block: bool, first: bool) -> (Result<
    Seq<u8>,
    IpcError,
>, Seq<ReadEvent>)
    decreases evs.len(),
{
    if need == 0 {
        (Ok(Seq::empty()), evs)
    } else if evs.len() == 0 {
        (Err(IpcError::UnexpectedEof), evs)
    } else {
        match evs[0] {
            ReadEvent::Bytes(b) => {
                if b.len() >= need {
                    (
                        Ok(b.take(need as int)),
                        if b.len() == need {
                            evs.skip(1)
                        } else {
                            evs.update(0, ReadEvent::Bytes(b.skip(need as int)))
                        },
                    )
                } else {
                    let rec = drain(evs.skip(1), (need - b.len()) as nat, block, false);
                    match rec.0 {
                        Ok(rest_bytes) => (Ok(b + rest_bytes), rec.1),
                        Err(e) => (Err(e), rec.1),
                    }
                }
            },
            ReadEvent::WouldBlock => {
                if !block && first {
                    (Err(IpcError::WouldBlock), evs.skip(1))
                } else {
                    drain(evs.skip(1), need, block, false)
                }
            },
            ReadEvent::Interrupted => drain(evs.skip(1), need, block, false),
            ReadEvent::Closed => (Err(IpcError::UnexpectedEof), evs.skip(1)),
            ReadEvent::Fatal => (Err(IpcError::ConnectionLost), evs.skip(1)),
        }
    }
}

/// The size of an event sequence counted in events plus data bytes; an
/// exact-length read consumes at least the bytes it returns.
pub open spec fn evs_size(evs: Seq<ReadEvent>) -> nat
    decreases evs.len(),
{
    if evs.len() == 0 {
        0
    } else {
        (match evs[0] {
            ReadEvent::Bytes(b) => 1 + b.len(),
            _ => 1nat,
        }) + evs_size(evs.skip(1))
    }
}

/// A successful exact-length read of `need` bytes shrinks the stream by at
/// least `need`; no read ever grows it.
pub proof fn lemma_drain_size(evs: Seq<ReadEvent>, need: nat, block: bool, first: bool)
    ensures
        evs_size(drain(evs, need, block, first).1) <= evs_size(evs),
        need > 0 && drain(evs, need, block, first).0 is Ok ==> evs_size(
            drain(evs, need, block, first).1,
        ) + need <= evs_size(evs),
    decreases evs.len(),
{
    if need == 0 || evs.len() == 0 {
    } else {
        match evs[0] {
            ReadEvent::Bytes(b) => {
                if b.len() >= need {
                    if b.len() == need {
                    } else {
                        let evs2 = evs.update(0, ReadEvent::Bytes(b.skip(need as int)));
                        assert(evs2.skip(1) =~= evs.skip(1));
                        assert(evs_size(evs2) == 1 + b.skip(need as int).len() + evs_size(
                            evs.skip(1),
                        ));
                    }
                } else {
                    lemma_drain_size(evs.skip(1), (need - b.len()) as nat, block, false);
                }
            },
            ReadEvent::WouldBlock => {
                if !block && first {
                } else {
                    lemma_drain_size(evs.skip(1), need, block, false);
                }
            },
            ReadEvent::Interrupted => {
                lemma_drain_size(evs.skip(1), need, block, false);
            },
            ReadEvent::Closed => {},
            ReadEvent::Fatal => {},
        }
    }
}

/// Reads exactly `need` bytes from the stream.
///
/// With `block` false and `first` true, a would-block on the first attempt
/// is returned as `WouldBlock`; afterwards a would-block pauses and retries,
/// so a frame is never abandoned once partially received. Interrupted reads
/// are always retried; an orderly close mid-read is `UnexpectedEof`; any
/// other fault is `ConnectionLost`.
pub fn read_exact<S: InputStream>(s: &mut S, need: usize, block: bool, first: bool) -> (r: Result<
    Vec<u8>,
    IpcError,
>)
    requires
        wf_events(old(s).events()),
    ensures
        wf_events(final(s).events()),
        match r {
            Ok(v) => v@.len() == need && drain(old(s).events(), need as nat, block, first) == (
                Ok::<Seq<u8>, IpcError>(v@),
                final(s).events(),
            ),
            Err(e) => drain(old(s).events(), need as nat, block, first) == (
                Err::<Seq<u8>, IpcError>(e),
                final(s).events(),
            ),
        },
    decreases old(s).events().len(),
{
    if need == 0 {
        let v: Vec<u8> = Vec::new();
        proof {
            assert(v@ =~= Seq::<u8>::empty());
        }
        return Ok(v);
    }
    let ghost pre = s.events();
    match s.read_some(need) {
        ReadChunk::Bytes(mut v) => {
            if v.len() == need {
                proof {
                    let b = (pre[0])->Bytes_0;
                    if b.len() == need {
                        assert(v@ == b);
                        assert(b.take(need as int) =~= b);
                    }
                }
                Ok(v)
            } else {
                match read_exact(s, need - v.len(), block, false) {
                    Ok(mut rest) => {
                        proof {
                            let b = (pre[0])->Bytes_0;
                            assert(v@ == b);
                        }
                        v.append(&mut rest);
                        Ok(v)
                    },
                    Err(e) => Err(e),
                }
            }
        },
        ReadChunk::WouldBlock => {
            if !block && first {
                Err(IpcError::WouldBlock)
            } else {
                s.pause();
                read_exact(s, need, block, false)
            }
        },
        ReadChunk::Interrupted => read_exact(s, need, block, false),
        ReadChunk::Closed => Err(IpcError::UnexpectedEof),
        ReadChunk::Fatal => Err(IpcError::ConnectionLost),
    }
}

/// A stream that would block before any byte of a frame has been read makes
/// a non-blocking exact-length read return `WouldBlock` at once, consuming
/// no input bytes.
pub proof fn lemma_would_block_before_frame(evs: Seq<ReadEvent>, need: nat)
    requires
        need > 0,
        evs.len() > 0,
        evs[0] is WouldBlock,
    ensures
        drain(evs, need, false, true) == (
            Err::<Seq<u8>, IpcError>(IpcError::WouldBlock),
            evs.skip(1),
        ),
{
}

/// A would-block after part of a frame has been read is retried, and the
/// read completes once the remaining bytes arrive, even in non-blocking
/// mode.
pub proof fn lemma_would_block_mid_frame(b1: Seq<u8>, b2: Seq<u8>, rest: Seq<ReadEvent>)
    requires
        b1.len() > 0,
        b2.len() > 0,
    ensures
        drain(
            seq![ReadEvent::Bytes(b1), ReadEvent::WouldBlock, ReadEvent::Bytes(b2)] + rest,
            b1.len() + b2.len(),
            false,
            true,
        ) == (Ok::<Seq<u8>, IpcError>(b1 + b2), rest),
{
    let evs = seq![ReadEvent::Bytes(b1), ReadEvent::WouldBlock, ReadEvent::Bytes(b2)] + rest;
    let need = b1.len() + b2.len();
    let evs1 = evs.skip(1);
    let evs2 = evs1.skip(1);
    let evs3 = evs2.skip(1);
    assert(evs1 =~= seq![ReadEvent::WouldBlock, ReadEvent::Bytes(b2)] + rest);
    assert(evs2 =~= seq![ReadEvent::Bytes(b2)] + rest);
    assert(evs3 =~= rest);
    assert(evs[0] == ReadEvent::Bytes(b1));
    assert(evs1[0] == ReadEvent::WouldBlock);
    assert(evs2[0] == ReadEvent::Bytes(b2));
    assert(b2.take(b2.len() as int) =~= b2);
    assert(drain(evs2, b2.len() as nat, false, false) == (Ok::<Seq<u8>, IpcError>(b2), evs3));
    assert(drain(evs1, b2.len() as nat, false, false) == (Ok::<Seq<u8>, IpcError>(b2), evs3));
    assert((need - b1.len()) as nat == b2.len() as nat);
    assert(drain(evs, need, false, true) == (Ok::<Seq<u8>, IpcError>(b1 + b2), evs3));
}

/// The sequence number after one more outbound message: the 12-bit counter
/// wraps to zero past 4095.
pub open spec fn next_seq(s: u16) -> u16 {
    if s >= 4095 {
        0
    } else {
        (s + 1) as u16
    }
}

/// What one poll returns and does: the payload of the first non-empty frame
/// (with all preceding pure acknowledgements consumed), the events left
/// pending, the updated "last acknowledged by peer" value, and the
/// acknowledgement frame written back, if any.
pub struct PollOutcome {
    /// The payload handed to the caller, or the error.
    pub result: Result<Seq<u8>, IpcError>,
    /// The read events still pending after the poll.
    pub rest: Seq<ReadEvent>,
    /// The last sequence number acknowledged by the peer.
    pub last_ack: u16,
    /// The bytes of the acknowledgement frame sent back, if any.
    pub acks: Seq<u8>,
}

/// The poll state machine: read a header without blocking, decode it, treat
/// an empty frame as a pure acknowledgement and keep polling, and return the
/// first real payload after acknowledging it with an empty frame that
/// echoes the received sequence number.
pub open spec fn poll_model(evs: Seq<ReadEvent>, last_ack: u16) -> PollOutcome
    decreases evs_size(evs),
    via poll_model_dec
{
    let (hr, evs1) = drain(evs, 12, false, true);
    match hr {
        Err(e) => PollOutcome { result: Err(e), rest: evs1, last_ack, acks: Seq::empty() },
        Ok(h) => match spec_decode_header(h) {
            Err(e) => PollOutcome { result: Err(e), rest: evs1, last_ack, acks: Seq::empty() },
            Ok((s, len)) => {
                if len == 0 {
                    poll_model(evs1, s)
                } else {
                    let (pr, evs2) = drain(evs1, len as nat, true, true);
                    match pr {
                        Err(e) => PollOutcome {
                            result: Err(e),
                            rest: evs2,
                            last_ack,
                            acks: Seq::empty(),
                        },
                        Ok(p) => PollOutcome {
                            result: Ok(p),
                            rest: evs2,
                            last_ack,
                            acks: header_bytes(s, 0),
                        },
                    }
                }
            },
        },
    }
}

#[via_fn]
proof fn poll_model_dec(evs: Seq<ReadEvent>, last_ack: u16) {
    lemma_drain_size(evs, 12, false, true);
}

/// A frame with an empty payload is a pure acknowledgement: polling never
/// surfaces it, "last acknowledged by peer" becomes its sequence number,
/// and the poll simply continues on the rest of the stream.
pub proof fn lemma_ack_frame_consumed(evs: Seq<ReadEvent>, n: u16, a: u16)
    requires
        evs.len() > 0,
        evs[0] == ReadEvent::Bytes(header_bytes(n, 0)),
    ensures
        poll_model(evs, a) == poll_model(evs.skip(1), n),
{
    let h = header_bytes(n, 0);
    assert(h.take(12) =~= h);
    assert(drain(evs, 12, false, true) == (Ok::<Seq<u8>, IpcError>(h), evs.skip(1)));
    assert(h.subrange(0, 4) =~= crate::codec::magic_bytes());
    crate::codec::lemma_seq_round_trip(n);
    assert(spec_decode_header(h) == Ok::<(u16, u32), IpcError>((n, 0)));
}

/// A frame with a non-empty payload and sequence number `n` is surfaced to
/// the caller, and exactly one empty acknowledgement frame with sequence
/// number `n` is written back; "last acknowledged by peer" is unchanged.
pub proof fn lemma_payload_frame_acked(evs: Seq<ReadEvent>, n: u16, p: Seq<u8>, a: u16)
    requires
        evs.len() > 0,
        evs[0] == ReadEvent::Bytes(frame_bytes(n, p)),
        MIN_PAYLOAD_LEN <= p.len() <= MAX_PAYLOAD_LEN,
    ensures
        poll_model(evs, a).result == Ok::<Seq<u8>, IpcError>(p),
        poll_model(evs, a).rest == evs.skip(1),
        poll_model(evs, a).last_ack == a,
        poll_model(evs, a).acks == header_bytes(n, 0),
{
    let len = p.len() as u32;
    let h = header_bytes(n, len);
    let b = frame_bytes(n, p);
    assert(b.len() == 12 + p.len());
    assert(b.take(12) =~= h);
    let evs1 = evs.update(0, ReadEvent::Bytes(b.skip(12)));
    assert(drain(evs, 12, false, true) == (Ok::<Seq<u8>, IpcError>(h), evs1));
    assert(h.subrange(0, 4) =~= crate::codec::magic_bytes());
    crate::codec::lemma_seq_round_trip(n);
    assert(header_bytes(n, 0)[4] == h[4] && header_bytes(n, 0)[5] == h[5] && header_bytes(n, 0)[6]
        == h[6] && header_bytes(n, 0)[7] == h[7]);
    crate::codec::lemma_len_round_trip(len);
    assert(header_bytes(0, len)[8] == h[8] && header_bytes(0, len)[9] == h[9] && header_bytes(
        0,
        len,
    )[10] == h[10] && header_bytes(0, len)[11] == h[11]);
    assert(spec_decode_header(h) == Ok::<(u16, u32), IpcError>((n, len)));
    assert(evs1[0] == ReadEvent::Bytes(b.skip(12)));
    assert(b.skip(12) =~= p);
    assert(p.take(p.len() as int) =~= p);
    assert(evs1.skip(1) =~= evs.skip(1));
    assert(drain(evs1, len as nat, true, true) == (Ok::<Seq<u8>, IpcError>(p), evs1.skip(1)));
}

/// The connection-singleton guard: at most one live connection (one
/// receiver and one sender handle) may exist at a time. Acquisition fails
/// fast while any handle is live; the guard is free again once both handles
/// have been released.
pub struct ConnectionInfo {
    /// How many handles of the current connection are still live.
    pub remaining: u8,
}

/// Failure to acquire the connection.
#[derive(Debug, Clone, Copy, PartialEq, Eq, Structural)]
pub enum TakeConnectionError {
    /// A live connection already exists.
    AlreadyTaken,
}

/// The guard's acquisition step: refused while any handle is live,
/// otherwise both handles come alive with both sequence counters at zero.
pub open spec fn spec_take(info: ConnectionInfo) -> (ConnectionInfo, Result<
    (u16, u16),
    TakeConnectionError,
>) {
    if info.remaining != 0 {
        (info, Err(TakeConnectionError::AlreadyTaken))
    } else {
        (ConnectionInfo { remaining: 2 }, Ok((0, 0)))
    }
}

/// The guard's release step: one live handle fewer.
pub open spec fn spec_release(info: ConnectionInfo) -> ConnectionInfo {
    ConnectionInfo { remaining: (info.remaining - 1) as u8 }
}

/// Acquiring twice without releasing fails the second time with
/// `AlreadyTaken` and leaves the guard as it was; after both handles of the
/// first connection are released, a third acquisition succeeds again, and
/// every successful acquisition starts both sequence counters at zero.
pub proof fn lemma_singleton_lifecycle(i0: ConnectionInfo)
    requires
        i0.remaining == 0,
    ensures
        spec_take(i0).1 == Ok::<(u16, u16), TakeConnectionError>((0, 0)),
        spec_take(spec_take(i0).0).1 == Err::<(u16, u16), TakeConnectionError>(
            TakeConnectionError::AlreadyTaken,
        ),
        spec_take(spec_take(i0).0).0 == spec_take(i0).0,
        spec_take(spec_release(spec_release(spec_take(i0).0))).1 == Ok::<
            (u16, u16),
            TakeConnectionError,
        >((0, 0)),
{
}

impl ConnectionInfo {
    /// A fresh guard with no live connection.
    pub fn new() -> (r: ConnectionInfo)
        ensures
            r.remaining == 0,
    {
        ConnectionInfo { remaining: 0 }
    }
}

/// The receiving half of a connection: polls frames, consumes pure
/// acknowledgements, and acknowledges real payloads on its own output
/// stream.
pub struct DaemonJSONRPCReceiver<S: InputStream, W: OutputStream> {
    /// The stream frames arrive on.
    pub input: S,
    /// The stream acknowledgement frames are written to.
    pub acks: W,
    /// The last sequence number the peer acknowledged with an empty frame.
    pub last_server_ack: u16,
}

impl<S: InputStream, W: OutputStream> DaemonJSONRPCReceiver<S, W> {
    /// Polls one message: consumes any pure acknowledgement frames, then
    /// returns the first real payload after writing exactly one empty
    /// acknowledgement frame echoing its sequence number.
    ///
    /// `WouldBlock` means no frame had begun to arrive; framing faults and
    /// stream faults are fatal to the connection. If the acknowledgement
    /// cannot be written the payload is not surfaced and the connection is
    /// reported lost.
    pub fn poll(&mut self) -> (r: Result<Vec<u8>, IpcError>)
        requires
            wf_events(old(self).input.events()),
        ensures
            wf_events(final(self).input.events()),
            ({
                let m = poll_model(old(self).input.events(), old(self).last_server_ack);
                &&& final(self).input.events() == m.rest
                &&& final(self).last_server_ack == m.last_ack
                &&& match r {
                    Ok(v) => m.result == Ok::<Seq<u8>, IpcError>(v@) && final(self).acks.sink()
                        == old(self).acks.sink() + m.acks,
                    Err(e) => (m.result == Err::<Seq<u8>, IpcError>(e) && final(self).acks.sink()
                        == old(self).acks.sink()) || (e == IpcError::ConnectionLost
                        && m.result is Ok && final(self).acks.sink() == old(self).acks.sink()),
                }
            }),
        decreases evs_size(old(self).input.events()),
    {
        let ghost pre = self.input.events();
        let h = match read_exact(&mut self.input, 12, false, true) {
            Ok(h) => h,
            Err(e) => {
                return Err(e);
            },
        };
        let (s, len) = match decode_header(&h) {
            Ok(x) => x,
            Err(e) => {
                return Err(e);
            },
        };
        if len == 0 {
            self.last_server_ack = s;
            proof {
                lemma_drain_size(pre, 12, false, true);
            }
            return self.poll();
        }
        let p = match read_exact(&mut self.input, len as usize, true, true) {
            Ok(p) => p,
            Err(e) => {
                return Err(e);
            },
        };
        let ack = encode_header(s, 0);
        if self.acks.write_all(&ack) {
            Ok(p)
        } else {
            Err(IpcError::ConnectionLost)
        }
    }
}

/// The sending half of a connection: frames each outbound message with the
/// next sequence number of the 12-bit send counter.
pub struct DaemonJSONRPCSender<W: OutputStream> {
    /// The stream frames are written to.
    pub out: W,
    /// The sequence number of the last message sent.
    pub last_send_seq: u16,
}

impl<W: OutputStream> DaemonJSONRPCSender<W> {
    /// Frames and writes one message. The send counter advances whether or
    /// not the write succeeds; on success exactly the frame's wire image is
    /// committed, and on failure nothing is and the connection is lost.
    ///
    /// The payload must have an admissible non-zero length; pure
    /// acknowledgements are only ever written by the receiving half.
    pub fn write(&mut self, bytes: &Vec<u8>) -> (r: Result<(), IpcError>)
        requires
            MIN_PAYLOAD_LEN as nat <= bytes@.len() <= MAX_PAYLOAD_LEN as nat,
        ensures
            final(self).last_send_seq == next_seq(old(self).last_send_seq),
            match r {
                Ok(_) => final(self).out.sink() == old(self).out.sink() + frame_bytes(
                    next_seq(old(self).last_send_seq),
                    bytes@,
                ),
                Err(e) => e == IpcError::ConnectionLost && final(self).out.sink() == old(
                    self,
                ).out.sink(),
            },
    {
        let seq: u16 = if self.last_send_seq >= 4095 {
            0
        } else {
            self.last_send_seq + 1
        };
        self.last_send_seq = seq;
        let frame = match encode(seq, bytes) {
            Ok(f) => f,
            Err(_) => {
                proof {
                    assert(false);
                }
                return Err(IpcError::ConnectionLost);
            },
        };
        if self.out.write_all(&frame) {
            Ok(())
        } else {
            Err(IpcError::ConnectionLost)
        }
    }

    /// Pushes buffered bytes toward the peer; what was sent is unchanged.
    pub fn flush(&mut self) -> (r: Result<(), IpcError>)
        ensures
            final(self).out.sink() == old(self).out.sink(),
            final(self).last_send_seq == old(self).last_send_seq,
            r matches Err(e) ==> e == IpcError::ConnectionLost,
    {
        if self.out.flush() {
            Ok(())
        } else {
            Err(IpcError::ConnectionLost)
        }
    }
}

/// Acquires the connection: fails fast with `AlreadyTaken` while any handle
/// of a previous acquisition is live, and otherwise hands out the two
/// halves over the supplied streams with both sequence counters reset to
/// zero.
pub fn take_connection<S: InputStream, W: OutputStream, T: OutputStream>(
    info: &mut ConnectionInfo,
    input: S,
    ack_out: W,
    out: T,
) -> (r: Result<(DaemonJSONRPCReceiver<S, W>, DaemonJSONRPCSender<T>), TakeConnectionError>)
    ensures
        *final(info) == spec_take(*old(info)).0,
        match r {
            Ok(h) => spec_take(*old(info)).1 is Ok && h.0.input == input && h.0.acks == ack_out
                && h.0.last_server_ack == 0 && h.1.out == out && h.1.last_send_seq == 0,
            Err(e) => spec_take(*old(info)).1 == Err::<(u16, u16), TakeConnectionError>(e),
        },
{
    if info.remaining != 0 {
        return Err(TakeConnectionError::AlreadyTaken);
    }
    info.remaining = 2;
    Ok(
        (
            DaemonJSONRPCReceiver { input, acks: ack_out, last_server_ack: 0 },
            DaemonJSONRPCSender { out, last_send_seq: 0 },
        ),
    )
}

/// Releases the receiving half; one live handle fewer.
pub fn release_receiver<S: InputStream, W: OutputStream>(
    info: &mut ConnectionInfo,
    rx: DaemonJSONRPCReceiver<S, W>,
)
    requires
        old(info).remaining >= 1,
    ensures
        *final(info) == spec_release(*old(info)),
{
    info.remaining = info.remaining - 1;
}

/// Releases the sending half; one live handle fewer.
pub fn release_sender<W: OutputStream>(info: &mut ConnectionInfo, tx: DaemonJSONRPCSender<W>)
    requires
        old(info).remaining >= 1,
    ensures
        *final(info) == spec_release(*old(info)),
{
    info.remaining = info.remaining - 1;
}

} // verus!
