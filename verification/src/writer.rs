//! Push-style writer: a protocol state machine over an owned byte sink.
//! Every method states exactly which bytes it appends, which errors it
//! returns on which inputs and in which states, and that a refused call
//! leaves both the state and the sink untouched.
use crate::data::{HEPRUP, HEPEUP, XmlTree};
use crate::serial::{
    build_close_line, build_comment_block, build_event_block, build_init_block,
    build_version_line, close_line, comment_block, event_block, init_block, version_line,
};
use crate::xmlser::{build_header_block, header_block};
use vstd::prelude::*;

verus! {

/// What the next legal call is.
#[derive(Debug, Clone, Copy, PartialEq, Eq, Structural)]
pub enum WriterState {
    /// The next block to be written is a header or the run information.
    ExpectingHeaderOrInit,
    /// The next call writes an event or finishes the file.
    ExpectingEventOrFinish,
    /// The file is complete; no further writing is allowed.
    Finished,
    /// A write to the sink failed; the output may be broken.
    Failed,
}

/// The operation a state error names.
#[derive(Debug, Clone, Copy, PartialEq, Eq, Structural)]
pub enum WriterOp {
    Header,
    XmlHeader,
    Init,
    Event,
    Finish,
}

/// Errors of the write side.
#[derive(Debug, Clone, Copy, PartialEq, Eq, Structural)]
pub enum WriteError {
    /// The subprocess count disagrees with a per-subprocess sequence length.
    MismatchedSubprocesses,
    /// The particle count disagrees with a per-particle sequence length.
    MismatchedParticles,
    /// The named operation is not legal in the current state.
    BadState(WriterState, WriterOp),
    /// The writer already failed once; output was attempted anyway.
    WriteToFailed,
    /// The sink refused the write.
    Io,
}

impl WriteError {
    /// A fixed description of the error kind.
    pub fn message(&self) -> (r: String)
        ensures
            r@ == self.spec_message(),
    {
        match self {
            WriteError::MismatchedSubprocesses => String::from_str(
                "subprocess count disagrees with a per-subprocess sequence length",
            ),
            WriteError::MismatchedParticles => String::from_str(
                "particle count disagrees with a per-particle sequence length",
            ),
            WriteError::BadState(_, _) => String::from_str(
                "operation is not legal in the writer's current state",
            ),
            WriteError::WriteToFailed => String::from_str(
                "writer already failed; output was attempted but the stream may be broken",
            ),
            WriteError::Io => String::from_str("the sink refused the write"),
        }
    }

    /// What `message` returns, by variant.
    pub open spec fn spec_message(&self) -> Seq<char> {
        match self {
            WriteError::MismatchedSubprocesses => "subprocess count disagrees with a per-subprocess sequence length"@,
            WriteError::MismatchedParticles => "particle count disagrees with a per-particle sequence length"@,
            WriteError::BadState(_, _) => "operation is not legal in the writer's current state"@,
            WriteError::WriteToFailed => "writer already failed; output was attempted but the stream may be broken"@,
            WriteError::Io => "the sink refused the write"@,
        }
    }
}

/// An owned output sink for the writer. The per-run and per-event structure
/// is the library's own logic; callers supply where the bytes go by
/// implementing this.
pub trait ByteSink {
    /// Everything written so far.
    spec fn content(&self) -> Seq<u8>;

    /// Whether this sink never refuses a write.
    spec fn infallible(&self) -> bool;

    /// Append `data`, all of it or none reported: on success the content
    /// grows by exactly `data`; on failure any prefix may have been kept.
    fn write_all(&mut self, data: &[u8]) -> (r: Result<(), ()>)
        ensures
            r is Ok ==> final(self).content() == old(self).content() + data@,
            final(self).infallible() == old(self).infallible(),
            old(self).infallible() ==> r is Ok,
    ;
}

/// An in-memory sink: a growable byte buffer that never fails.
pub struct VecSink {
    buf: Vec<u8>,
}

impl VecSink {
    pub fn new() -> (r: VecSink)
        ensures
            r.content() == Seq::<u8>::empty(),
            r.infallible(),
    {
        VecSink { buf: Vec::new() }
    }

    /// The bytes written so far.
    pub fn bytes(&self) -> (r: &Vec<u8>)
        ensures
            r@ == self.content(),
    {
        &self.buf
    }
}

impl ByteSink for VecSink {
    closed spec fn content(&self) -> Seq<u8> {
        self.buf@
    }

    closed spec fn infallible(&self) -> bool {
        true
    }

    fn write_all(&mut self, data: &[u8]) -> (r: Result<(), ()>) {
        crate::syntax::push_all(&mut self.buf, data);
        Ok(())
    }
}

/// Writer for the format: owns the sink, enforces the call protocol.
pub struct Writer<S: ByteSink> {
    sink: S,
    state: WriterState,
}

/// The outcome of a write attempt that passed all structural checks:
/// either the sink took the whole block (state advances to `next` unless
/// already failed, and an earlier failure is reported), or the sink refused
/// and the writer latches `Failed`.
pub open spec fn write_attempt_ok<S: ByteSink>(
    pre: Writer<S>,
    post: Writer<S>,
    r: Result<(), WriteError>,
    block: Seq<u8>,
    next: WriterState,
) -> bool {
    ||| (post.content() == pre.content() + block && post.state() == (
    if pre.state() == WriterState::Failed {
        WriterState::Failed
    } else {
        next
    }) && r == (if pre.state() == WriterState::Failed {
        Err::<(), WriteError>(WriteError::WriteToFailed)
    } else {
        Ok::<(), WriteError>(())
    }))
    ||| (!pre.sink_infallible() && r == Err::<(), WriteError>(WriteError::Io) && post.state()
        == WriterState::Failed)
}

impl<S: ByteSink> Writer<S> {
    /// The protocol state.
    pub closed spec fn state(&self) -> WriterState {
        self.state
    }

    /// Everything written to the sink so far.
    pub closed spec fn content(&self) -> Seq<u8> {
        self.sink.content()
    }

    /// Whether the sink never refuses a write.
    pub closed spec fn sink_infallible(&self) -> bool {
        self.sink.infallible()
    }

    /// Give the sink back, ending the writer's ownership of it.
    pub fn into_sink(self) -> (r: S)
        ensures
            r.content() == self.content(),
            r.infallible() == self.sink_infallible(),
    {
        self.sink
    }

    /// Create a writer: immediately emits the opening version line.
    pub fn new(sink: S, version: &[u8]) -> (r: Result<Writer<S>, WriteError>)
        ensures
            match r {
                Ok(w) => w.content() == sink.content() + version_line(version@) && w.state()
                    == WriterState::ExpectingHeaderOrInit && w.sink_infallible()
                    == sink.infallible(),
                Err(e) => e == WriteError::Io && !sink.infallible(),
            },
    {
        let mut sink = sink;
        let line = build_version_line(version);
        match sink.write_all(line.as_slice()) {
            Ok(_) => Ok(Writer { sink, state: WriterState::ExpectingHeaderOrInit }),
            Err(_) => Err(WriteError::Io),
        }
    }

    /// Report a state error unless the writer is in `expected` or already
    /// failed: a failed writer still attempts its writes.
    pub fn assert_state(&self, expected: WriterState, from: WriterOp) -> (r: Result<
        (),
        WriteError,
    >)
        ensures
            r == if self.state() == expected || self.state() == WriterState::Failed {
                Ok::<(), WriteError>(())
            } else {
                Err::<(), WriteError>(WriteError::BadState(self.state(), from))
            },
    {
        if self.state != expected && self.state != WriterState::Failed {
            Err(WriteError::BadState(self.state, from))
        } else {
            Ok(())
        }
    }

    /// Success, unless an earlier write already failed.
    pub fn ok_unless_failed(&self) -> (r: Result<(), WriteError>)
        ensures
            r == if self.state() == WriterState::Failed {
                Err::<(), WriteError>(WriteError::WriteToFailed)
            } else {
                Ok::<(), WriteError>(())
            },
    {
        if self.state == WriterState::Failed {
            Err(WriteError::WriteToFailed)
        } else {
            Ok(())
        }
    }

    /// Write a block and settle state and result; shared by every emitting
    /// method.
    fn emit(&mut self, block: Vec<u8>, next: WriterState) -> (r: Result<(), WriteError>)
        requires
            next != WriterState::Failed,
        ensures
            write_attempt_ok(*old(self), *final(self), r, block@, next),
            old(self).sink_infallible() ==> final(self).content() == old(self).content() + block@,
            final(self).sink_infallible() == old(self).sink_infallible(),
    {
        let ghost pre = *self;
        match self.sink.write_all(block.as_slice()) {
            Ok(_) => {
                proof {
                    assert(self.sink.content() == pre.sink.content() + block@);
                    assert(self.state == pre.state);
                }
                if self.state != WriterState::Failed {
                    self.state = next;
                }
                let r = self.ok_unless_failed();
                proof {
                    assert(self.content() == pre.content() + block@);
                    assert(write_attempt_ok(pre, *self, r, block@, next));
                }
                r
            },
            Err(_) => {
                proof {
                    assert(!pre.sink.infallible());
                }
                self.state = WriterState::Failed;
                proof {
                    assert(write_attempt_ok(
                        pre,
                        *self,
                        Err::<(), WriteError>(WriteError::Io),
                        block@,
                        next,
                    ));
                }
                Err(WriteError::Io)
            },
        }
    }

    /// Write the comment header block. Legal before the run information.
    pub fn header(&mut self, header: &[u8]) -> (r: Result<(), WriteError>)
        ensures
            old(self).state() != WriterState::ExpectingHeaderOrInit && old(self).state()
                != WriterState::Failed ==> r == Err::<(), WriteError>(
                WriteError::BadState(old(self).state(), WriterOp::Header),
            ) && *final(self) == *old(self),
            old(self).state() == WriterState::ExpectingHeaderOrInit || old(self).state()
                == WriterState::Failed ==> write_attempt_ok(
                *old(self),
                *final(self),
                r,
                comment_block(header@),
                WriterState::ExpectingHeaderOrInit,
            ),
            final(self).sink_infallible() == old(self).sink_infallible(),
    {
        let pre = self.assert_state(WriterState::ExpectingHeaderOrInit, WriterOp::Header);
        if let Err(e) = pre {
            return Err(e);
        }
        let block = build_comment_block(header);
        self.emit(block, WriterState::ExpectingHeaderOrInit)
    }

    /// Write the structured sub-header block. Legal before the run
    /// information.
    pub fn xml_header(&mut self, header: &XmlTree) -> (r: Result<(), WriteError>)
        ensures
            old(self).state() != WriterState::ExpectingHeaderOrInit && old(self).state()
                != WriterState::Failed ==> r == Err::<(), WriteError>(
                WriteError::BadState(old(self).state(), WriterOp::XmlHeader),
            ) && *final(self) == *old(self),
            old(self).state() == WriterState::ExpectingHeaderOrInit || old(self).state()
                == WriterState::Failed ==> write_attempt_ok(
                *old(self),
                *final(self),
                r,
                header_block(*header),
                WriterState::ExpectingHeaderOrInit,
            ),
            final(self).sink_infallible() == old(self).sink_infallible(),
    {
        let pre = self.assert_state(WriterState::ExpectingHeaderOrInit, WriterOp::XmlHeader);
        if let Err(e) = pre {
            return Err(e);
        }
        let block = build_header_block(header);
        self.emit(block, WriterState::ExpectingHeaderOrInit)
    }

    /// Write the run information. Checks the declared subprocess count
    /// against every per-subprocess sequence before any byte is written;
    /// on success the writer expects events.
    pub fn heprup(&mut self, runinfo: &HEPRUP) -> (r: Result<(), WriteError>)
        ensures
            old(self).state() != WriterState::ExpectingHeaderOrInit && old(self).state()
                != WriterState::Failed ==> r == Err::<(), WriteError>(
                WriteError::BadState(old(self).state(), WriterOp::Init),
            ) && *final(self) == *old(self),
            (old(self).state() == WriterState::ExpectingHeaderOrInit || old(self).state()
                == WriterState::Failed) && !crate::data::heprup_counts_ok(runinfo@) ==> r == Err::<
                (),
                WriteError,
            >(WriteError::MismatchedSubprocesses) && *final(self) == *old(self),
            (old(self).state() == WriterState::ExpectingHeaderOrInit || old(self).state()
                == WriterState::Failed) && crate::data::heprup_counts_ok(runinfo@)
                ==> write_attempt_ok(
                *old(self),
                *final(self),
                r,
                init_block(runinfo@),
                WriterState::ExpectingEventOrFinish,
            ),
            final(self).sink_infallible() == old(self).sink_infallible(),
    {
        let pre = self.assert_state(WriterState::ExpectingHeaderOrInit, WriterOp::Init);
        if let Err(e) = pre {
            return Err(e);
        }
        let num_sub = runinfo.NPRUP;
        if num_sub < 0 || runinfo.XSECUP.len() != num_sub as usize || runinfo.XERRUP.len()
            != num_sub as usize || runinfo.XMAXUP.len() != num_sub as usize || runinfo.LPRUP.len()
            != num_sub as usize {
            return Err(WriteError::MismatchedSubprocesses);
        }
        let block = build_init_block(runinfo);
        self.emit(block, WriterState::ExpectingEventOrFinish)
    }

    /// Write one event. Checks the declared particle count against every
    /// per-particle sequence before any byte is written.
    pub fn hepeup(&mut self, event: &HEPEUP) -> (r: Result<(), WriteError>)
        ensures
            old(self).state() != WriterState::ExpectingEventOrFinish && old(self).state()
                != WriterState::Failed ==> r == Err::<(), WriteError>(
                WriteError::BadState(old(self).state(), WriterOp::Event),
            ) && *final(self) == *old(self),
            (old(self).state() == WriterState::ExpectingEventOrFinish || old(self).state()
                == WriterState::Failed) && !crate::data::hepeup_counts_ok(event@) ==> r == Err::<
                (),
                WriteError,
            >(WriteError::MismatchedParticles) && *final(self) == *old(self),
            (old(self).state() == WriterState::ExpectingEventOrFinish || old(self).state()
                == WriterState::Failed) && crate::data::hepeup_counts_ok(event@)
                ==> write_attempt_ok(
                *old(self),
                *final(self),
                r,
                event_block(event@),
                WriterState::ExpectingEventOrFinish,
            ),
            final(self).sink_infallible() == old(self).sink_infallible(),
    {
        let pre = self.assert_state(WriterState::ExpectingEventOrFinish, WriterOp::Event);
        if let Err(e) = pre {
            return Err(e);
        }
        let num_particles = event.NUP;
        if num_particles < 0 || event.IDUP.len() != num_particles as usize || event.ISTUP.len()
            != num_particles as usize || event.MOTHUP.len() != num_particles as usize
            || event.ICOLUP.len() != num_particles as usize || event.PUP.len()
            != num_particles as usize || event.VTIMUP.len() != num_particles as usize
            || event.SPINUP.len() != num_particles as usize {
            return Err(WriteError::MismatchedParticles);
        }
        let block = build_event_block(event);
        self.emit(block, WriterState::ExpectingEventOrFinish)
    }

    /// Emit the outer closing tag; the file is then complete.
    pub fn finish(&mut self) -> (r: Result<(), WriteError>)
        ensures
            old(self).state() != WriterState::ExpectingEventOrFinish && old(self).state()
                != WriterState::Failed ==> r == Err::<(), WriteError>(
                WriteError::BadState(old(self).state(), WriterOp::Finish),
            ) && *final(self) == *old(self),
            old(self).state() == WriterState::ExpectingEventOrFinish || old(self).state()
                == WriterState::Failed ==> write_attempt_ok(
                *old(self),
                *final(self),
                r,
                close_line(),
                WriterState::Finished,
            ),
            final(self).sink_infallible() == old(self).sink_infallible(),
    {
        let pre = self.assert_state(WriterState::ExpectingEventOrFinish, WriterOp::Finish);
        if let Err(e) = pre {
            return Err(e);
        }
        let block = build_close_line();
        self.emit(block, WriterState::Finished)
    }

    /// Best-effort close: when events could still be written, try to finish
    /// and discard the outcome, so that the output ends in the outer closing
    /// tag whenever the sink cooperates. Call on every exit path.
    pub fn close(&mut self)
        ensures
            old(self).state() == WriterState::ExpectingEventOrFinish ==> write_attempt_ok(
                *old(self),
                *final(self),
                (if final(self).state() == WriterState::Finished {
                    Ok::<(), WriteError>(())
                } else {
                    Err::<(), WriteError>(WriteError::Io)
                }),
                close_line(),
                WriterState::Finished,
            ),
            old(self).state() == WriterState::ExpectingEventOrFinish && old(self).sink_infallible()
                ==> final(self).content() == old(self).content() + close_line()
                    && final(self).state() == WriterState::Finished,
            old(self).state() != WriterState::ExpectingEventOrFinish ==> *final(self)
                == *old(self),
            final(self).sink_infallible() == old(self).sink_infallible(),
    {
        if self.state == WriterState::ExpectingEventOrFinish {
            let _ = self.finish();
        }
    }
}

} // verus!
