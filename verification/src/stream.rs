//! Abstract byte streams.
//!
//! The transport is written against two small traits: an input stream whose
//! behaviour is modelled as a sequence of read events, and an output stream
//! modelled as the sequence of bytes committed to it so far. The crate
//! provides in-memory implementations (`ScriptedStream`, `VecSink`) that are
//! verified against the models; a program talking to a live daemon supplies
//! its own socket-backed implementations of the same traits.

use vstd::prelude::*;

verus! {

/// One outcome of asking an input stream for bytes, at the model level.
pub enum ReadEvent {
    /// Some bytes arrive; the chunk is never empty.
    Bytes(Seq<u8>),
    /// The stream has no data right now (a non-blocking read would block).
    WouldBlock,
    /// The read was interrupted and may simply be retried.
    Interrupted,
    /// The stream was closed in an orderly way.
    Closed,
    /// The stream failed; the connection cannot be trusted afterwards.
    Fatal,
}

/// One outcome of asking an input stream for bytes, at run time.
pub enum ReadChunk {
    /// Some bytes arrived; the vector is never empty.
    Bytes(Vec<u8>),
    /// No data right now.
    WouldBlock,
    /// Interrupted; retry.
    Interrupted,
    /// Orderly end of stream.
    Closed,
    /// The stream failed.
    Fatal,
}

/// Event sequences are well formed when every data chunk is non-empty.
pub open spec fn wf_events(evs: Seq<ReadEvent>) -> bool {
    forall|i: int|
        0 <= i < evs.len() ==> (#[trigger] evs[i] matches ReadEvent::Bytes(b) ==> b.len() > 0)
}

/// What a single read returns and leaves behind, given the pending events
/// `pre` and the largest number of bytes `max` the caller will take. The
/// first event is consumed; a data chunk larger than `max` is split, its
/// remainder staying at the front of the stream.
pub open spec fn read_some_post(
    pre: Seq<ReadEvent>,
    post: Seq<ReadEvent>,
    max: int,
    r: ReadChunk,
) -> bool {
    if pre.len() == 0 {
        &&& r is Closed
        &&& post == pre
    } else {
        match pre[0] {
            ReadEvent::Bytes(b) => {
                &&& r matches ReadChunk::Bytes(v)
                &&& if b.len() <= max {
                    v@ == b && post == pre.skip(1)
                } else {
                    v@ == b.take(max) && post == pre.update(0, ReadEvent::Bytes(b.skip(max)))
                }
            },
            ReadEvent::WouldBlock => r is WouldBlock && post == pre.skip(1),
            ReadEvent::Interrupted => r is Interrupted && post == pre.skip(1),
            ReadEvent::Closed => r is Closed && post == pre.skip(1),
            ReadEvent::Fatal => r is Fatal && post == pre.skip(1),
        }
    }
}

/// A source of bytes whose behaviour is a sequence of read events.
///
/// For the in-memory implementation the events are simply the script it was
/// built from. For a stream backed by a live socket the events stand for
/// whatever outcomes its reads will have; nothing verified depends on
/// knowing them in advance, only on each read consuming the front event.
pub trait InputStream: Sized {
    /// The read outcomes this stream will yield, in order. An
    /// implementation outside the verified world may leave the default,
    /// which models an exhausted stream.
    open spec fn events(&self) -> Seq<ReadEvent> {
        Seq::<ReadEvent>::empty()
    }

    /// Takes the front event: at most `max` bytes of a data chunk, or the
    /// non-data outcome.
    fn read_some(&mut self, max: usize) -> (r: ReadChunk)
        requires
            max >= 1,
            wf_events(old(self).events()),
        ensures
            read_some_post(old(self).events(), final(self).events(), max as int, r),
            wf_events(final(self).events()),
    ;

    /// Waits briefly before a retry; the pending events are unchanged.
    fn pause(&mut self)
        ensures
            final(self).events() == old(self).events(),
    ;
}

/// A sink of bytes modelled as everything committed to it so far.
pub trait OutputStream: Sized {
    /// All bytes committed to this sink, in order. An implementation
    /// outside the verified world may leave the default.
    open spec fn sink(&self) -> Seq<u8> {
        Seq::<u8>::empty()
    }

    /// Writes the whole buffer. Returns false on a stream fault, in which
    /// case nothing was committed and the connection is dead.
    fn write_all(&mut self, data: &Vec<u8>) -> (r: bool)
        ensures
            r ==> final(self).sink() == old(self).sink() + data@,
            !r ==> final(self).sink() == old(self).sink(),
    ;

    /// Pushes buffered bytes onward; what was committed is unchanged.
    fn flush(&mut self) -> (r: bool)
        ensures
            final(self).sink() == old(self).sink(),
    ;
}

/// An in-memory input stream that replays a fixed script of read outcomes.
pub struct ScriptedStream {
    /// The pending script, front of the stream first.
    pub script: Vec<ScriptStep>,
}

/// One step of a `ScriptedStream` script.
pub enum ScriptStep {
    /// Bytes that arrive together; must not be empty.
    Bytes(Vec<u8>),
    /// A would-block condition.
    WouldBlock,
    /// An interrupted read.
    Interrupted,
    /// Orderly close.
    Closed,
    /// A fatal stream fault.
    Fatal,
}

/// The event a script step stands for.
pub open spec fn step_event(s: ScriptStep) -> ReadEvent {
    match s {
        ScriptStep::Bytes(v) => ReadEvent::Bytes(v@),
        ScriptStep::WouldBlock => ReadEvent::WouldBlock,
        ScriptStep::Interrupted => ReadEvent::Interrupted,
        ScriptStep::Closed => ReadEvent::Closed,
        ScriptStep::Fatal => ReadEvent::Fatal,
    }
}

impl ScriptedStream {
    /// The events of a script, front of the stream first.
    pub open spec fn script_events(&self) -> Seq<ReadEvent> {
        self.script@.map(|i: int, s: ScriptStep| step_event(s))
    }

    /// Builds a stream that replays `steps` in order. Data steps must carry
    /// at least one byte.
    pub fn new(steps: Vec<ScriptStep>) -> (r: ScriptedStream)
        requires
            forall|i: int|
                0 <= i < steps@.len() ==> (#[trigger] steps@[i] matches ScriptStep::Bytes(v)
                    ==> v@.len() > 0),
        ensures
            r.events() == steps@.map(|i: int, s: ScriptStep| step_event(s)),
            wf_events(r.events()),
    {
        let r = ScriptedStream { script: steps };
        proof {
            assert forall|i: int| 0 <= i < r.script_events().len() implies (
            #[trigger] r.script_events()[i] matches ReadEvent::Bytes(b) ==> b.len() > 0) by {
                assert(r.script_events()[i] == step_event(r.script@[i]));
            }
        }
        r
    }
}

impl InputStream for ScriptedStream {
    open spec fn events(&self) -> Seq<ReadEvent> {
        self.script_events()
    }

    fn read_some(&mut self, max: usize) -> (r: ReadChunk) {
        let ghost pre = self.events();
        let ghost f = |i: int, s: ScriptStep| step_event(s);
        if self.script.len() == 0 {
            return ReadChunk::Closed;
        }
        let step = self.script.remove(0);
        proof {
            assert(self.events() =~= pre.skip(1));
            assert(pre[0] == step_event(step));
        }
        match step {
            ScriptStep::Bytes(mut v) => {
                if v.len() <= max {
                    ReadChunk::Bytes(v)
                } else {
                    let tail = v.split_off(max);
                    let ghost before_insert = self.script@;
                    self.script.insert(0, ScriptStep::Bytes(tail));
                    proof {
                        let full = (pre[0])->Bytes_0;
                        assert(v@ =~= full.take(max as int));
                        assert(tail@ =~= full.skip(max as int));
                        assert(self.script@ =~= seq![ScriptStep::Bytes(tail)] + before_insert);
                        assert(self.events() =~= pre.update(
                            0,
                            ReadEvent::Bytes(full.skip(max as int)),
                        ));
                    }
                    ReadChunk::Bytes(v)
                }
            },
            ScriptStep::WouldBlock => ReadChunk::WouldBlock,
            ScriptStep::Interrupted => ReadChunk::Interrupted,
            ScriptStep::Closed => ReadChunk::Closed,
            ScriptStep::Fatal => ReadChunk::Fatal,
        }
    }

    fn pause(&mut self) {
    }
}

/// An in-memory sink that simply accumulates everything written to it.
pub struct VecSink {
    /// The bytes committed so far.
    pub data: Vec<u8>,
}

impl VecSink {
    /// An empty sink.
    pub fn new() -> (r: VecSink)
        ensures
            r.sink() == Seq::<u8>::empty(),
    {
        let r = VecSink { data: Vec::new() };
        proof {
            assert(r.sink() =~= Seq::<u8>::empty());
        }
        r
    }
}

impl OutputStream for VecSink {
    open spec fn sink(&self) -> Seq<u8> {
        self.data@
    }

    fn write_all(&mut self, data: &Vec<u8>) -> (r: bool) {
        let mut i: usize = 0;
        while i < data.len()
            invariant
                i <= data@.len(),
                self.data@ == old(self).data@ + data@.subrange(0, i as int),
            decreases data@.len() - i,
        {
            self.data.push(data[i]);
            i = i + 1;
            proof {
                assert(self.data@ =~= old(self).data@ + data@.subrange(0, i as int));
            }
        }
        proof {
            assert(old(self).data@ + data@.subrange(0, data@.len() as int) =~= old(self).data@
                + data@);
        }
        true
    }

    fn flush(&mut self) -> (r: bool) {
        true
    }
}

} // verus!
