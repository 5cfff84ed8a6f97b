//! The task that drives the transport, one event at a time.
use bytes::{Bytes, BytesMut};
use vstd::prelude::*;

use crate::buffer::{buffer_slice, buffer_view, bytes_slice, bytes_view};
use crate::codec::{decode_makes_progress, parsed, FrameCodec, Parsed};
use crate::frame::FrameView;
use crate::mplex::{option_seq, Multiplexer, MultiplexerView};

verus! {

/// How far the task has come.
#[derive(Clone, Copy, Debug, PartialEq, Eq, Structural)]
pub enum Phase {
    /// The session is alive.
    Running,
    /// The session was shut down; frames that are queued are still collected.
    Draining,
    /// The frames that were collected are still written.
    Flushing,
    /// Nothing is left to do.
    Stopped,
}

/// What happened last.
pub enum Event {
    /// The task was told to stop.
    Shutdown,
    /// So many bytes of the output were written; `None` if writing failed.
    Written(Option<usize>),
    /// A frame to send; `None` if there is none, and none will come.
    Outgoing(Option<Bytes>),
    /// So many bytes were appended to the input; `None` if reading failed.
    Received(Option<usize>),
}

/// The model of an [`Event`].
pub enum EventView {
    Shutdown,
    Written(Option<nat>),
    Outgoing(Option<Seq<u8>>),
    Received(Option<nat>),
}

impl View for Event {
    type V = EventView;

    open spec fn view(&self) -> EventView {
        match self {
            Event::Shutdown => EventView::Shutdown,
            Event::Written(None) => EventView::Written(None),
            Event::Written(Some(n)) => EventView::Written(Some(*n as nat)),
            Event::Outgoing(None) => EventView::Outgoing(None),
            Event::Outgoing(Some(bytes)) => EventView::Outgoing(Some(bytes_view(*bytes))),
            Event::Received(None) => EventView::Received(None),
            Event::Received(Some(n)) => EventView::Received(Some(*n as nat)),
        }
    }
}

/// The model of a [`Drive`].
pub struct DriveView {
    /// The bytes that arrived and are no whole frame yet.
    pub input: Seq<u8>,
    /// The bytes that are still to be written.
    pub output: Seq<u8>,
    /// How far the task has come.
    pub phase: Phase,
}

impl DriveView {
    /// The events that the task waits for.
    pub open spec fn expects(self, event: EventView) -> bool {
        match self.phase {
            Phase::Running => event is Written ==> self.output.len() > 0,
            Phase::Draining => event is Outgoing,
            Phase::Flushing => event is Written,
            Phase::Stopped => false,
        }
    }

    /// No more is written than there is, and what is to be written can be held
    /// in memory.
    pub open spec fn accepts(self, event: EventView) -> bool {
        match event {
            EventView::Written(Some(n)) => n <= self.output.len(),
            EventView::Outgoing(Some(bytes)) => self.output.len() + bytes.len() <= isize::MAX,
            _ => true,
        }
    }

    /// What an event does to the task.
    pub open spec fn step(self, event: EventView) -> Self {
        match event {
            EventView::Shutdown => DriveView { phase: Phase::Draining, ..self },
            EventView::Written(written) => if written is None || written == Some(0nat) {
                DriveView { phase: Phase::Stopped, ..self }
            } else {
                let output = self.output.skip(written.unwrap() as int);
                DriveView {
                    output,
                    phase: if self.phase is Flushing && output.len() == 0 {
                        Phase::Stopped
                    } else {
                        self.phase
                    },
                    ..self
                }
            },
            EventView::Outgoing(Some(bytes)) => DriveView { output: self.output + bytes, ..self },
            EventView::Outgoing(None) => DriveView {
                phase: if self.phase is Draining && self.output.len() > 0 {
                    Phase::Flushing
                } else {
                    Phase::Stopped
                },
                ..self
            },
            EventView::Received(received) => if received is None || received == Some(0nat) {
                DriveView { phase: Phase::Stopped, ..self }
            } else {
                DriveView {
                    input: parsed(self.input).rest,
                    phase: if parsed(self.input).error is Some {
                        Phase::Stopped
                    } else {
                        self.phase
                    },
                    ..self
                }
            },
        }
    }

    /// The frames that an event brings in.
    pub open spec fn brings(self, event: EventView) -> Seq<FrameView> {
        match event {
            EventView::Received(Some(n)) => if n == 0 {
                Seq::empty()
            } else {
                parsed(self.input).frames
            },
            _ => Seq::empty(),
        }
    }
}

/// Whom one frame from the peer wakes.
pub struct Woken<W> {
    /// The readers of its substream, or of all of them.
    pub readers: Seq<W>,
    /// The accepter.
    pub accepter: Option<W>,
}

/// Everyone who is woken, in order.
pub open spec fn all_woken<W>(woken: Seq<Woken<W>>) -> Seq<W>
    decreases woken.len(),
{
    if woken.len() == 0 {
        Seq::empty()
    } else {
        all_woken(woken.drop_last()) + woken.last().readers + option_seq(woken.last().accepter)
    }
}

impl<W> MultiplexerView<W> {
    /// What frames from the peer do, one after the other.
    pub open spec fn dispatch_all(self, frames: Seq<FrameView>) -> Self
        decreases frames.len(),
    {
        if frames.len() == 0 {
            self
        } else {
            self.dispatch_all(frames.drop_last()).dispatch(frames.last())
        }
    }

    /// Whom frames from the peer wake, one after the other: `woken` says whom
    /// each of them does.
    pub open spec fn dispatch_all_wakes(self, frames: Seq<FrameView>, woken: Seq<Woken<W>>) -> bool {
        &&& woken.len() == frames.len()
        &&& forall|i: int|
            0 <= i < frames.len() ==> self.dispatch_all(#[trigger] frames.take(i)).dispatch_wakes(
                frames[i],
                woken[i].readers,
                woken[i].accepter,
            )
    }

    /// `wakers` are those whom frames from the peer wake, one after the other.
    pub open spec fn delivery_wakes(self, frames: Seq<FrameView>, wakers: Seq<W>) -> bool {
        exists|woken: Seq<Woken<W>>| #[trigger]
            self.dispatch_all_wakes(frames, woken) && wakers == all_woken(woken)
    }
}

/// The state of the task that drives the transport.
///
/// Bytes from the transport are appended to `read_buf`, and what `write_buf`
/// holds is written to it; each time the task then takes a [`Drive::step`].
pub struct Drive {
    /// The bytes that arrived and are no whole frame yet.
    pub read_buf: BytesMut,
    /// The bytes that are still to be written.
    pub write_buf: BytesMut,
    /// How far the task has come.
    pub phase: Phase,
}

impl View for Drive {
    type V = DriveView;

    open spec fn view(&self) -> DriveView {
        DriveView {
            input: buffer_view(self.read_buf),
            output: buffer_view(self.write_buf),
            phase: self.phase,
        }
    }
}

impl Drive {
    /// A task that has nothing to read or write yet.
    pub fn new() -> (drive: Self)
        ensures
            drive@ == (DriveView {
                input: Seq::empty(),
                output: Seq::empty(),
                phase: Phase::Running,
            }),
    {
        Drive {
            read_buf: BytesMut::with_capacity(8 * 1024),
            write_buf: BytesMut::new(),
            phase: Phase::Running,
        }
    }

    /// Returns whether there is anything to write.
    pub fn has_output(&self) -> (pending: bool)
        ensures
            pending == (self@.output.len() > 0),
    {
        buffer_slice(&self.write_buf).len() > 0
    }

    /// Returns how many more frames to collect before the next write, where
    /// `queued` of them are to be had at once: all of them, if the event that
    /// comes up is itself a frame to send.
    pub fn to_collect(&self, event: &Event, queued: usize) -> (count: usize)
        ensures
            count == if self@.phase is Running && event@ matches EventView::Outgoing(Some(_)) {
                queued
            } else {
                0
            },
    {
        match event {
            Event::Outgoing(Some(_)) if self.phase == Phase::Running => queued,
            _ => 0,
        }
    }

    /// Applies every frame that has arrived in full. Returns whom to wake, and
    /// whether the bytes behind the frames are malformed.
    fn deliver<W>(&mut self, mux: &mut Multiplexer<W>) -> (result: (Vec<W>, bool))
        requires
            old(mux).wf(),
        ensures
            final(mux).wf(),
            final(mux).keeps(*old(mux)),
            final(mux)@ == old(mux)@.dispatch_all(parsed(old(self)@.input).frames),
            old(mux)@.delivery_wakes(parsed(old(self)@.input).frames, result.0@),
            result.1 == parsed(old(self)@.input).error is Some,
            final(self)@ == (DriveView { input: parsed(old(self)@.input).rest, ..old(self)@ }),
    {
        let ghost input = self@.input;
        let ghost start = *mux;
        let ghost mut done: Seq<FrameView> = Seq::empty();
        let ghost mut woken: Seq<Woken<W>> = Seq::empty();
        let mut wakers: Vec<W> = Vec::new();
        let mut codec = FrameCodec;
        proof {
            assert(done + parsed(input).frames =~= parsed(input).frames);
        }
        loop
            invariant
                start == *old(mux),
                mux.wf(),
                mux.keeps(start),
                mux@ == start@.dispatch_all(done),
                start@.dispatch_all_wakes(done, woken),
                wakers@ == all_woken(woken),
                parsed(input) == (Parsed {
                    frames: done + parsed(self@.input).frames,
                    rest: parsed(self@.input).rest,
                    error: parsed(self@.input).error,
                }),
                input == old(self)@.input,
                self@.output == old(self)@.output,
                self@.phase == old(self)@.phase,
            decreases self@.input.len(),
        {
            let ghost pending = self@.input;
            let ghost before = *mux;
            let ghost earlier = wakers@;
            proof {
                decode_makes_progress(pending);
            }
            match codec.decode(&mut self.read_buf) {
                Ok(Some(frame)) => {
                    let (readers, accepter) = mux.dispatch(frame);
                    let ghost by_frame = Woken { readers: readers@, accepter };
                    let mut readers = readers;
                    wakers.append(&mut readers);
                    if let Some(w) = accepter {
                        wakers.push(w);
                    }
                    proof {
                        let grown = done.push(frame@);
                        assert(grown.drop_last() =~= done);
                        assert(grown + parsed(self@.input).frames =~= done + parsed(
                            pending,
                        ).frames);
                        assert(woken.push(by_frame).drop_last() =~= woken);
                        assert(wakers@ =~= earlier + by_frame.readers + option_seq(
                            by_frame.accepter,
                        ));
                        assert forall|i: int| 0 <= i < grown.len() implies start@.dispatch_all(
                            #[trigger] grown.take(i),
                        ).dispatch_wakes(
                            grown[i],
                            woken.push(by_frame)[i].readers,
                            woken.push(by_frame)[i].accepter,
                        ) by {
                            assert(grown.take(i) =~= done.take(i));
                            if i == done.len() {
                                assert(done.take(i) =~= done);
                            }
                        }
                        woken = woken.push(by_frame);
                        done = grown;
                    }
                },
                Ok(None) => {
                    assert(done + Seq::<FrameView>::empty() =~= done);
                    return (wakers, false);
                },
                Err(_) => {
                    assert(done + Seq::<FrameView>::empty() =~= done);
                    return (wakers, true);
                },
            }
        }
    }

    /// Takes one step: brings the task and the session up to date with an
    /// event, and returns whom to wake. A task that stops takes the session
    /// down with it.
    pub fn step<W>(&mut self, mux: &mut Multiplexer<W>, event: Event) -> (wakers: Vec<W>)
        requires
            old(mux).wf(),
            old(self)@.expects(event@),
            old(self)@.accepts(event@),
        ensures
            final(mux).wf(),
            final(mux).keeps(*old(mux)),
            final(self)@ == old(self)@.step(event@),
            ({
                let frames = old(self)@.brings(event@);
                let served = old(mux)@.dispatch_all(frames);
                if final(self)@.phase is Stopped {
                    &&& final(mux)@ == served.close_all()
                    &&& exists|earlier: Seq<W>, readers: Seq<W>|
                        {
                            &&& #[trigger] old(mux)@.delivery_wakes(frames, earlier)
                            &&& #[trigger] served.all_readers(readers)
                            &&& wakers@ == earlier + readers + option_seq(served.accept_waker)
                        }
                } else {
                    &&& final(mux)@ == served
                    &&& old(mux)@.delivery_wakes(frames, wakers@)
                }
            }),
    {
        let ghost start = *mux;
        let ghost frames = self@.brings(event@);
        let mut wakers: Vec<W> = Vec::new();
        match event {
            Event::Shutdown => {
                self.phase = Phase::Draining;
            },
            Event::Written(written) => match written {
                Some(n) if n > 0 => {
                    let _ = self.write_buf.split_to(n);
                    if self.phase == Phase::Flushing && !self.has_output() {
                        self.phase = Phase::Stopped;
                    }
                },
                _ => {
                    self.phase = Phase::Stopped;
                },
            },
            Event::Outgoing(Some(bytes)) => {
                self.write_buf.extend_from_slice(bytes_slice(&bytes));
            },
            Event::Outgoing(None) => {
                self.phase = if self.phase == Phase::Draining && self.has_output() {
                    Phase::Flushing
                } else {
                    Phase::Stopped
                };
            },
            Event::Received(received) => match received {
                Some(n) if n > 0 => {
                    let (woken, malformed) = self.deliver(mux);
                    wakers = woken;
                    if malformed {
                        self.phase = Phase::Stopped;
                    }
                },
                _ => {
                    self.phase = Phase::Stopped;
                },
            },
        }
        let ghost served = *mux;
        let ghost earlier = wakers@;
        assert(start@.delivery_wakes(frames, earlier)) by {
            if frames.len() == 0 {
                assert(start@.dispatch_all_wakes(frames, Seq::empty()));
            }
        }
        if self.phase == Phase::Stopped {
            // Whoever still waits is woken, and finds the session closed.
            let (readers, accepter) = mux.close_all();
            let ghost woken = readers@;
            let mut readers = readers;
            wakers.append(&mut readers);
            let ghost waiting = accepter;
            if let Some(w) = accepter {
                wakers.push(w);
            }
            proof {
                assert(served@.all_readers(woken));
                assert(wakers@ =~= earlier + woken + option_seq(waiting));
            }
        }
        wakers
    }
}

} // verus!
