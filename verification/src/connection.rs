//! The typed consumer-facing connection: polls decoded daemon events and
//! sends typed client commands over the frame transport.

use vstd::prelude::*;

use crate::codec::{frame_bytes, IpcError};
use crate::envelope::{
    command_bytes, decode_notification, encode_command, spec_notification, update_view,
};
use crate::event::client::ClientEvent;
use crate::event::daemon::DaemonEvent;
use crate::jsonrpc::{
    next_seq, poll_model, spec_release, spec_take, ConnectionInfo, DaemonJSONRPCReceiver,
    DaemonJSONRPCSender, TakeConnectionError,
};
use crate::stream::{wf_events, InputStream, OutputStream};

verus! {

/// Failure to poll one decoded daemon event.
#[derive(Debug)]
pub enum PollError {
    /// The transport failed: no data yet, a framing fault, or a lost
    /// stream.
    Transport(IpcError),
    /// A frame arrived but its payload was not a well-formed notification;
    /// the raw payload is carried for diagnostic capture.
    MalformedEnvelope(Vec<u8>),
}

/// The receiving half: polls frames and decodes them into daemon events.
pub struct DaemonConnectionReceiver<S: InputStream, W: OutputStream> {
    /// The frame-level receiver underneath.
    pub inner: DaemonJSONRPCReceiver<S, W>,
}

impl<S: InputStream, W: OutputStream> DaemonConnectionReceiver<S, W> {
    /// Polls one decoded daemon event.
    ///
    /// Pure acknowledgement frames are consumed silently; the first real
    /// payload is acknowledged and decoded. `Transport(WouldBlock)` means
    /// no frame had begun to arrive; a payload that is not a well-formed
    /// notification is returned raw as `MalformedEnvelope`, so the caller
    /// can persist it for inspection.
    pub fn poll(&mut self) -> (r: Result<DaemonEvent, PollError>)
        requires
            wf_events(old(self).inner.input.events()),
        ensures
            wf_events(final(self).inner.input.events()),
            ({
                let m = poll_model(old(self).inner.input.events(), old(self).inner.last_server_ack);
                &&& final(self).inner.input.events() == m.rest
                &&& final(self).inner.last_server_ack == m.last_ack
                &&& match r {
                    Ok(ev) => {
                        &&& m.result matches Ok(p) && spec_notification(p) matches Some(u) && (
                        ev matches DaemonEvent::Data(d) && update_view(d) == u)
                        &&& final(self).inner.acks.sink() == old(self).inner.acks.sink() + m.acks
                    },
                    Err(PollError::MalformedEnvelope(raw)) => {
                        &&& m.result == Ok::<Seq<u8>, IpcError>(raw@)
                        &&& spec_notification(raw@) is None
                        &&& final(self).inner.acks.sink() == old(self).inner.acks.sink() + m.acks
                    },
                    Err(PollError::Transport(e)) => {
                        ||| {
                            &&& m.result == Err::<Seq<u8>, IpcError>(e)
                            &&& final(self).inner.acks.sink() == old(self).inner.acks.sink()
                        }
                        ||| {
                            &&& e == IpcError::ConnectionLost
                            &&& m.result is Ok
                            &&& final(self).inner.acks.sink() == old(self).inner.acks.sink()
                        }
                    },
                }
            }),
    {
        let bytes = match self.inner.poll() {
            Ok(b) => b,
            Err(e) => {
                return Err(PollError::Transport(e));
            },
        };
        match decode_notification(&bytes) {
            Ok(ev) => Ok(ev),
            Err(_) => Err(PollError::MalformedEnvelope(bytes)),
        }
    }
}

/// The sending half: frames and writes typed client commands.
pub struct DaemonConnectionSender<W: OutputStream> {
    /// The frame-level sender underneath.
    pub inner: DaemonJSONRPCSender<W>,
}

impl<W: OutputStream> DaemonConnectionSender<W> {
    /// Encodes one command as its JSON envelope and sends it framed with
    /// the next send sequence number. The counter advances whether or not
    /// the write succeeds.
    pub fn send(&mut self, event: ClientEvent) -> (r: Result<(), IpcError>)
        ensures
            final(self).inner.last_send_seq == next_seq(old(self).inner.last_send_seq),
            match r {
                Ok(_) => final(self).inner.out.sink() == old(self).inner.out.sink() + frame_bytes(
                    next_seq(old(self).inner.last_send_seq),
                    command_bytes(event),
                ),
                Err(e) => e == IpcError::ConnectionLost && final(self).inner.out.sink() == old(
                    self,
                ).inner.out.sink(),
            },
    {
        let bytes = encode_command(event);
        proof {
            lemma_command_len(event);
        }
        self.inner.write(&bytes)
    }

    /// Pushes buffered bytes toward the daemon.
    pub fn flush(&mut self) -> (r: Result<(), IpcError>)
        ensures
            final(self).inner.out.sink() == old(self).inner.out.sink(),
            final(self).inner.last_send_seq == old(self).inner.last_send_seq,
            r matches Err(e) ==> e == IpcError::ConnectionLost,
    {
        self.inner.flush()
    }
}

/// A command envelope always has an admissible frame payload length.
proof fn lemma_command_len(e: ClientEvent)
    ensures
        2 <= command_bytes(e).len() <= crate::codec::MAX_PAYLOAD_LEN,
{
    let ms = crate::envelope::command_entries(e);
    assert(ms.skip(1) =~= seq![ms[1]]);
    assert(crate::json::ser_members(seq![ms[1]]) == crate::json::ser_member(ms[1]));
}

/// Acquires the connection as typed halves: fails fast with `AlreadyTaken`
/// while any handle of a previous acquisition is live, and otherwise hands
/// out the two halves over the supplied streams with both sequence
/// counters reset to zero.
pub fn take_connection<S: InputStream, W: OutputStream, T: OutputStream>(
    info: &mut ConnectionInfo,
    input: S,
    ack_out: W,
    out: T,
) -> (r: Result<(DaemonConnectionReceiver<S, W>, DaemonConnectionSender<T>), TakeConnectionError>)
    ensures
        *final(info) == spec_take(*old(info)).0,
        match r {
            Ok(h) => spec_take(*old(info)).1 is Ok && h.0.inner.input == input && h.0.inner.acks
                == ack_out && h.0.inner.last_server_ack == 0 && h.1.inner.out == out
                && h.1.inner.last_send_seq == 0,
            Err(e) => spec_take(*old(info)).1 == Err::<(u16, u16), TakeConnectionError>(e),
        },
{
    match crate::jsonrpc::take_connection(info, input, ack_out, out) {
        Ok((rx, tx)) => Ok(
            (DaemonConnectionReceiver { inner: rx }, DaemonConnectionSender { inner: tx }),
        ),
        Err(e) => Err(e),
    }
}

/// Releases the receiving half; one live handle fewer.
pub fn release_receiver<S: InputStream, W: OutputStream>(
    info: &mut ConnectionInfo,
    rx: DaemonConnectionReceiver<S, W>,
)
    requires
        old(info).remaining >= 1,
    ensures
        *final(info) == spec_release(*old(info)),
{
    crate::jsonrpc::release_receiver(info, rx.inner);
}

/// Releases the sending half; one live handle fewer.
pub fn release_sender<W: OutputStream>(info: &mut ConnectionInfo, tx: DaemonConnectionSender<W>)
    requires
        old(info).remaining >= 1,
    ensures
        *final(info) == spec_release(*old(info)),
{
    crate::jsonrpc::release_sender(info, tx.inner);
}

} // verus!
