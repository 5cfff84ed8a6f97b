//! A substream handle.
use bytes::Bytes;
use vstd::prelude::*;

use crate::buffer::bytes_view;
use crate::error::Error;
use crate::frame::{Frame, FrameView, StreamId, MAX_FRAME_PAYLOAD};
use crate::incoming::{IncomingState, Poll};
use crate::mplex::{Multiplexer, MultiplexerView};

verus! {

/// The model of a [`Stream`].
pub struct StreamView {
    /// The identifier of the substream.
    pub id: StreamId,
    /// The incoming state that the handle reads from. No two handles of one
    /// session have the same.
    pub handle: nat,
    /// Whether a `Close` was sent, so that nothing more can be written.
    pub outgoing_closed: bool,
}

impl StreamView {
    /// What telling the peer that a substream is closed comes to. It is told
    /// once, and not at all once the session has been shut down.
    pub open spec fn sends_close<W>(
        self,
        before: MultiplexerView<W>,
        after: MultiplexerView<W>,
    ) -> bool {
        if self.outgoing_closed || before.closed {
            after == before
        } else {
            ||| after == before.send(FrameView::close(self.id))
            ||| after == before.send_late(FrameView::close(self.id))
        }
    }
}

/// A single substream.
///
/// A handle is used together with the session that gave it out, and is given
/// back with [`Stream::drop`].
pub struct Stream {
    id: StreamId,
    slot: usize,
    handle: Ghost<nat>,
    outgoing_closed: bool,
}

impl View for Stream {
    type V = StreamView;

    closed spec fn view(&self) -> StreamView {
        StreamView {
            id: self.id,
            handle: self.handle@,
            outgoing_closed: self.outgoing_closed,
        }
    }
}

impl Stream {
    /// The slot that the incoming state is kept in.
    pub closed spec fn slot(self) -> usize {
        self.slot
    }

    /// A handle to a substream that was opened just now.
    pub(crate) fn new(id: StreamId, slot: usize, Ghost(handle): Ghost<nat>) -> (stream: Self)
        ensures
            stream@ == (StreamView { id, handle, outgoing_closed: false }),
            stream.slot() == slot,
    {
        Stream { id, slot, handle: Ghost(handle), outgoing_closed: false }
    }

    /// Returns the slot that the incoming state is kept in.
    pub(crate) fn slot_index(&self) -> (slot: usize)
        ensures
            slot == self.slot(),
    {
        self.slot
    }

    /// Returns the substream's identifier.
    pub fn id(&self) -> (id: StreamId)
        ensures
            id == self@.id,
    {
        self.id
    }

    /// Returns whether a `Close` was sent, so that nothing more can be written.
    pub fn outgoing_closed(&self) -> (closed: bool)
        ensures
            closed == self@.outgoing_closed,
    {
        self.outgoing_closed
    }

    /// Reads at most `limit` bytes. Nothing comes out at the end of the
    /// substream; before that the read waits, and `waker` is registered.
    pub fn poll_read<W>(&self, mux: &mut Multiplexer<W>, limit: usize, waker: W) -> (result: Poll<
        Bytes,
    >)
        requires
            old(mux).wf(),
            old(mux).owns(*self),
        ensures
            final(mux).wf(),
            final(mux).keeps(*old(mux)),
            final(mux)@ == old(mux)@.read(self@.handle, limit as nat, waker),
            match result {
                Poll::Ready(bytes) => old(mux)@.incoming[self@.handle].read_result(limit as nat)
                    == Poll::Ready(bytes_view(bytes)),
                Poll::Pending => old(mux)@.incoming[self@.handle].read_result(limit as nat)
                    == Poll::<Seq<u8>>::Pending,
            },
            limit > 0 ==> ({
                let state = old(mux)@.incoming[self@.handle];
                let drained = state.unread() == Seq::<u8>::empty();
                &&& (result matches Poll::Ready(bytes) && bytes_view(bytes).len() == 0)
                    == (state.closed && drained)
                &&& result is Pending == (!state.closed && drained)
            }),
    {
        proof {
            mux.model_holds();
            if limit > 0 {
                mux@.incoming[self@.handle].empty_read_is_end(limit as nat);
            }
        }
        let result = mux.read(self, limit, waker);
        assert(result matches Poll::Ready(bytes) && bytes_view(bytes).len() == 0 ==> bytes_view(
            result->Ready_0,
        ) =~= Seq::<u8>::empty());
        result
    }

    /// Sends `buf` to the peer in one frame. Never waits. Nothing can be sent
    /// once either side has closed the substream.
    pub fn poll_write<W>(&self, mux: &mut Multiplexer<W>, buf: &[u8]) -> (result: Poll<
        Result<usize, Error>,
    >)
        requires
            old(mux).wf(),
            old(mux).owns(*self),
        ensures
            final(mux).wf(),
            final(mux).keeps(*old(mux)),
            result matches Poll::Ready(outcome) && if self@.outgoing_closed {
                &&& outcome == Err::<usize, Error>(Error::BrokenPipe)
                &&& final(mux)@ == old(mux)@
            } else if buf@.len() > MAX_FRAME_PAYLOAD {
                &&& outcome == Err::<usize, Error>(Error::WriteTooLarge)
                &&& final(mux)@ == old(mux)@
            } else if old(mux)@.incoming[self@.handle].closed {
                &&& outcome == Err::<usize, Error>(Error::BrokenPipe)
                &&& final(mux)@ == old(mux)@
            } else {
                let frame = FrameView::data(self@.id, buf@);
                match outcome {
                    Ok(n) => n == buf@.len() && old(mux)@.sends(frame, Ok(()), final(mux)@),
                    Err(error) => old(mux)@.sends(frame, Err(error), final(mux)@),
                }
            },
    {
        if self.outgoing_closed {
            return Poll::Ready(Err(Error::BrokenPipe));
        }
        if buf.len() > MAX_FRAME_PAYLOAD as usize {
            return Poll::Ready(Err(Error::WriteTooLarge));
        }
        if mux.is_closed(self) {
            return Poll::Ready(Err(Error::BrokenPipe));
        }
        let frame = Frame::data(self.id, Bytes::copy_from_slice(buf));
        match mux.send_frame(frame) {
            Ok(_) => Poll::Ready(Ok(buf.len())),
            Err(error) => Poll::Ready(Err(error)),
        }
    }

    /// Does nothing: a frame is on its way once it has been written, and there
    /// is no point at which a substream could be flushed.
    pub fn poll_flush(&self) -> (result: Poll<Result<(), Error>>)
        ensures
            result == Poll::Ready(Ok::<(), Error>(())),
    {
        Poll::Ready(Ok(()))
    }

    /// Tells the peer that the substream is closed. Nothing can be written
    /// after that; what the peer still sends can be read until it closes the
    /// substream too.
    pub fn poll_shutdown<W>(&mut self, mux: &mut Multiplexer<W>) -> (result: Poll<
        Result<(), Error>,
    >)
        requires
            old(mux).wf(),
        ensures
            result == Poll::Ready(Ok::<(), Error>(())),
            final(mux).wf(),
            final(mux).keeps(*old(mux)),
            old(self)@.sends_close(old(mux)@, final(mux)@),
            final(self)@ == (StreamView { outgoing_closed: true, ..old(self)@ }),
            old(mux).owns(*old(self)) ==> final(mux).owns(*final(self)),
    {
        self.send_close(mux);
        Poll::Ready(Ok(()))
    }

    /// Tells the peer that the substream is closed, unless it was told before.
    fn send_close<W>(&mut self, mux: &mut Multiplexer<W>)
        requires
            old(mux).wf(),
        ensures
            final(mux).wf(),
            final(mux).keeps(*old(mux)),
            old(self)@.sends_close(old(mux)@, final(mux)@),
            final(self)@ == (StreamView { outgoing_closed: true, ..old(self)@ }),
            old(mux).owns(*old(self)) ==> final(mux).owns(*final(self)),
    {
        let ghost before = *self;
        if !self.outgoing_closed {
            let _ = mux.send_frame(Frame::close(self.id));
            self.outgoing_closed = true;
        }
        proof {
            mux.owns_by_place(before, *self);
        }
    }

    /// Gives the handle back. The peer is told that the substream is closed,
    /// and everything that the session keeps for it is released.
    ///
    /// Returns the waker of a reader that waits on the substream, and what was
    /// kept, so that the caller can let go of both once the session is no
    /// longer locked.
    pub fn drop<W>(self, mux: &mut Multiplexer<W>) -> (left: (Option<W>, IncomingState<W>))
        requires
            old(mux).wf(),
            old(mux).owns(self),
        ensures
            final(mux).wf(),
            final(mux).keeps_but(*old(mux), self@.handle),
            exists|told: MultiplexerView<W>| #[trigger]
                self@.sends_close(old(mux)@, told) && final(mux)@ == told.release(self@),
            left.0 == if old(mux)@.attached(self@.handle) {
                old(mux)@.incoming[self@.handle].read_waker
            } else {
                None
            },
            left.1@ == old(mux)@.detach(self@).incoming[self@.handle],
    {
        let mut stream = self;
        stream.send_close(mux);
        mux.release(stream)
    }
}

} // verus!
