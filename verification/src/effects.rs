//! What each operation changes, and that it changes nothing else.
use vstd::prelude::*;

use crate::error::Error;
use crate::format::{encoding_is_laid_out, numbers_are_big_endian};
use crate::frame::{FrameView, StreamId};
use crate::incoming::{IncomingView, Poll};
use crate::mplex::{Multiplexer, MultiplexerView, Side};
use crate::stream::{Stream, StreamView};

verus! {

impl<W> IncomingView<W> {
    /// A read gives out the front of the first chunk, as much as there is room
    /// for, and takes exactly that away; it waits only where there is no chunk
    /// and the end has not come, and only then registers its waker.
    pub proof fn read_takes_the_front(self, limit: nat, waker: W)
        ensures
            ({
                let after = self.after_read(limit, waker);
                &&& after.id == self.id
                &&& after.closed == self.closed
                &&& self.chunks.len() > 0 ==> ({
                    let first = self.chunks[0];
                    let n = if limit < first.len() {
                        limit
                    } else {
                        first.len()
                    };
                    &&& (self.read_result(limit) matches Poll::Ready(bytes) && bytes.len() == n
                        && forall|i: int| 0 <= i < n ==> #[trigger] bytes[i] == first[i])
                    &&& after.read_waker == self.read_waker
                    &&& n < first.len() ==> ({
                        &&& after.chunks.len() == self.chunks.len()
                        &&& after.chunks[0].len() == first.len() - n
                        &&& forall|i: int|
                            0 <= i < first.len() - n ==> #[trigger] after.chunks[0][i] == first[n
                                + i]
                        &&& forall|k: int|
                            1 <= k < self.chunks.len() ==> #[trigger] after.chunks[k]
                                == self.chunks[k]
                    })
                    &&& n == first.len() ==> ({
                        &&& after.chunks.len() == self.chunks.len() - 1
                        &&& forall|k: int|
                            0 <= k < after.chunks.len() ==> #[trigger] after.chunks[k]
                                == self.chunks[k + 1]
                    })
                })
                &&& self.chunks.len() == 0 && self.closed ==> ({
                    &&& (self.read_result(limit) matches Poll::Ready(bytes) && bytes.len() == 0)
                    &&& after == self
                })
                &&& self.chunks.len() == 0 && !self.closed ==> ({
                    &&& self.read_result(limit) is Pending
                    &&& after.chunks == self.chunks
                    &&& after.read_waker == Some(waker)
                })
            }),
    {
    }

    /// What arrives is the last thing to be read, and wakes the reader. What is
    /// empty leaves nothing to be read.
    pub proof fn arrival_goes_behind(self, payload: Seq<u8>)
        ensures
            ({
                let after = self.arrive(payload);
                &&& after.id == self.id
                &&& after.closed == self.closed
                &&& after.read_waker is None
                &&& after.chunks.flatten() == self.chunks.flatten() + payload
                &&& payload.len() > 0 ==> ({
                    &&& after.chunks.len() == self.chunks.len() + 1
                    &&& after.chunks.last() == payload
                    &&& after.chunks.drop_last() == self.chunks
                })
                &&& payload.len() == 0 ==> after.chunks == self.chunks
            }),
    {
        self.arrival_in_order(payload);
        if payload.len() > 0 {
            assert(self.chunks.push(payload).drop_last() =~= self.chunks);
        }
    }

    /// Closing marks the end and wakes the reader, and takes nothing away. A
    /// new substream is open, with nothing to read and nobody waiting.
    pub proof fn closing_takes_nothing_away(self, id: StreamId)
        ensures
            self.close().closed,
            self.close().read_waker is None,
            self.close().chunks == self.chunks,
            self.close().id == self.id,
            IncomingView::<W>::fresh(id).id == id,
            IncomingView::<W>::fresh(id).chunks.len() == 0,
            !IncomingView::<W>::fresh(id).closed,
            IncomingView::<W>::fresh(id).read_waker is None,
            self.unread() == self.chunks.flatten(),
    {
    }
}

impl Side {
    /// The dialing side begins with `1` and the listening side with `2`; both
    /// go on in steps of two, and begin anew behind the last ID there is.
    pub proof fn ids_go_by_twos(self, id: u32)
        ensures
            self is Initiator ==> self.first_id() == 1,
            self is Responder ==> self.first_id() == 2,
            id <= 0xffff_fffd ==> self.next_id(id) == id + 2,
            id > 0xffff_fffd && self is Initiator ==> self.next_id(id) == 1,
            id > 0xffff_fffd && self is Responder ==> self.next_id(id) == 2,
            self is Initiator ==> (self.mints(id) <==> id % 2 == 1),
            self is Responder ==> (self.mints(id) <==> id % 2 == 0 && id != 0),
    {
    }
}

impl<W> MultiplexerView<W> {
    /// An `Open` of the peer, in a session that was not shut down, makes one
    /// new substream active and queues its handle for `accept`. Nobody else's
    /// state changes. In one that was shut down it has no effect.
    pub proof fn open_adds_one_substream(self, frame: FrameView)
        requires
            self.inv(),
            frame.flag is Open,
        ensures
            self.closed ==> self.dispatch(frame) == self,
            !self.closed ==> ({
                let after = self.dispatch(frame);
                let id = frame.stream_id.0;
                let h = self.next_handle;
                &&& after == (MultiplexerView {
                    streams: after.streams,
                    incoming: after.incoming,
                    next_handle: h + 1,
                    new_streams: after.new_streams,
                    accept_waker: None,
                    ..self
                })
                &&& after.new_streams.len() == self.new_streams.len() + 1
                &&& after.new_streams.last().id == frame.stream_id
                &&& after.new_streams.last().handle == h
                &&& !after.new_streams.last().outgoing_closed
                &&& forall|i: int|
                    0 <= i < self.new_streams.len() ==> #[trigger] after.new_streams[i]
                        == self.new_streams[i]
                &&& after.streams.contains_key(id) && after.streams[id] == h
                &&& forall|x: u32|
                    x != id ==> (#[trigger] after.streams.contains_key(x)
                        <==> self.streams.contains_key(x))
                &&& forall|x: u32|
                    x != id && self.streams.contains_key(x) ==> #[trigger] after.streams[x]
                        == self.streams[x]
                &&& !self.incoming.contains_key(h) && after.incoming.contains_key(h)
                &&& after.incoming[h].id == frame.stream_id
                &&& after.incoming[h].chunks.len() == 0
                &&& !after.incoming[h].closed
                &&& after.incoming[h].read_waker is None
                &&& forall|x: nat|
                    x != h ==> (#[trigger] after.incoming.contains_key(x)
                        <==> self.incoming.contains_key(x))
                &&& forall|x: nat|
                    x != h && self.incoming.contains_key(x) ==> #[trigger] after.incoming[x]
                        == self.incoming[x]
            }),
    {
    }

    /// `Data` of the peer goes behind what is unread on the active substream
    /// that it names, and nowhere else. Where none is active under that ID, it
    /// has no effect.
    pub proof fn data_reaches_its_substream(self, frame: FrameView)
        requires
            self.inv(),
            frame.flag is Data,
        ensures
            ({
                let after = self.dispatch(frame);
                let id = frame.stream_id.0;
                let h = self.streams[id];
                &&& after == (MultiplexerView { incoming: after.incoming, ..self })
                &&& forall|x: nat| #[trigger]
                    after.incoming.contains_key(x) <==> self.incoming.contains_key(x)
                &&& forall|x: nat|
                    self.incoming.contains_key(x) && !(self.streams.contains_key(id) && x == h)
                        ==> #[trigger] after.incoming[x] == self.incoming[x]
                &&& self.streams.contains_key(id) ==> ({
                    let state = after.incoming[h];
                    &&& state.chunks.flatten() == self.incoming[h].chunks.flatten() + frame.payload
                    &&& frame.payload.len() > 0 ==> state.chunks.len()
                        == self.incoming[h].chunks.len() + 1 && state.chunks.last()
                        == frame.payload
                    &&& frame.payload.len() == 0 ==> state.chunks == self.incoming[h].chunks
                    &&& !state.closed
                    &&& state.id == frame.stream_id
                    &&& state.read_waker is None
                })
            }),
    {
        let id = frame.stream_id.0;
        if self.streams.contains_key(id) {
            self.incoming[self.streams[id]].arrival_goes_behind(frame.payload);
        }
    }

    /// A `Close`, of the peer's or of this side's, ends the active substream
    /// with that ID, and takes nothing away that has arrived. Others go on.
    pub proof fn close_ends_its_substream(self, frame: FrameView, id: u32)
        requires
            self.inv(),
            frame.flag is Close,
            frame.stream_id.0 == id,
        ensures
            self.dispatch(frame) == self.close_stream(id),
            ({
                let after = self.close_stream(id);
                let h = self.streams[id];
                &&& after == (MultiplexerView {
                    streams: after.streams,
                    incoming: after.incoming,
                    ..self
                })
                &&& !after.streams.contains_key(id)
                &&& forall|x: u32|
                    x != id ==> (#[trigger] after.streams.contains_key(x)
                        <==> self.streams.contains_key(x))
                &&& forall|x: u32|
                    x != id && self.streams.contains_key(x) ==> #[trigger] after.streams[x]
                        == self.streams[x]
                &&& forall|x: nat| #[trigger]
                    after.incoming.contains_key(x) <==> self.incoming.contains_key(x)
                &&& forall|x: nat|
                    self.incoming.contains_key(x) && !(self.streams.contains_key(id) && x == h)
                        ==> #[trigger] after.incoming[x] == self.incoming[x]
                &&& self.streams.contains_key(id) ==> ({
                    &&& after.incoming[h].closed
                    &&& after.incoming[h].read_waker is None
                    &&& after.incoming[h].chunks == self.incoming[h].chunks
                    &&& after.incoming[h].id == self.incoming[h].id
                })
            }),
    {
    }

    /// A shutdown ends every substream for every handle, and takes nothing away
    /// that has arrived or that is queued. The peer's `GoAway` does the same,
    /// and tells the reason: its first four bytes, the most significant first.
    pub proof fn shutdown_ends_all(self, frame: FrameView)
        requires
            frame.flag is GoAway,
        ensures
            ({
                let after = self.close_all();
                &&& after == (MultiplexerView {
                    streams: after.streams,
                    incoming: after.incoming,
                    accept_waker: None,
                    closed: true,
                    ..self
                })
                &&& forall|x: u32| !(#[trigger] after.streams.contains_key(x))
                &&& forall|x: nat| #[trigger]
                    after.incoming.contains_key(x) <==> self.incoming.contains_key(x)
                &&& forall|x: nat|
                    self.incoming.contains_key(x) ==> ({
                        let state = #[trigger] after.incoming[x];
                        &&& state.closed
                        &&& state.read_waker is None
                        &&& state.chunks == self.incoming[x].chunks
                        &&& state.id == self.incoming[x].id
                    })
            }),
            self.shutdown() == (MultiplexerView { signalled: true, ..self.close_all() }),
            ({
                let after = self.dispatch(frame);
                let p = frame.payload;
                &&& after == (MultiplexerView {
                    goaway_reason: after.goaway_reason,
                    ..self.close_all()
                })
                &&& p.len() < 4 ==> after.goaway_reason == self.goaway_reason
                &&& p.len() >= 4 ==> (after.goaway_reason matches Some(reason) && reason == p[0]
                    * 0x100_0000 + p[1] * 0x1_0000 + p[2] * 0x100 + p[3])
            }),
    {
        let p = frame.payload;
        if p.len() >= 4 {
            numbers_are_big_endian(0, p.take(4));
        }
    }

    /// Opening a substream uses up one ID and one handle, and makes the
    /// substream active and empty. Nothing else changes.
    pub proof fn opening_adds_one_substream(self)
        requires
            self.inv(),
        ensures
            self.opening().id.0 == self.next_id,
            self.opening().handle == self.next_handle,
            !self.opening().outgoing_closed,
            ({
                let after = self.begin_open();
                let id = self.next_id;
                let h = self.next_handle;
                &&& after == (MultiplexerView {
                    streams: after.streams,
                    incoming: after.incoming,
                    next_handle: h + 1,
                    next_id: after.next_id,
                    ..self
                })
                &&& id <= 0xffff_fffd ==> after.next_id == id + 2
                &&& id > 0xffff_fffd ==> after.next_id == if self.side is Initiator {
                    1
                } else {
                    2int
                }
                &&& after.streams.contains_key(id) && after.streams[id] == h
                &&& forall|x: u32|
                    x != id ==> (#[trigger] after.streams.contains_key(x)
                        <==> self.streams.contains_key(x))
                &&& forall|x: u32|
                    x != id && self.streams.contains_key(x) ==> #[trigger] after.streams[x]
                        == self.streams[x]
                &&& !self.incoming.contains_key(h) && after.incoming.contains_key(h)
                &&& after.incoming[h].id.0 == id
                &&& after.incoming[h].chunks.len() == 0
                &&& !after.incoming[h].closed
                &&& after.incoming[h].read_waker is None
                &&& forall|x: nat|
                    x != h ==> (#[trigger] after.incoming.contains_key(x)
                        <==> self.incoming.contains_key(x))
                &&& forall|x: nat|
                    x != h && self.incoming.contains_key(x) ==> #[trigger] after.incoming[x]
                        == self.incoming[x]
            }),
    {
    }

    /// A read through a handle changes the state of that handle and nothing
    /// else: no other reader, and not the accepter.
    pub proof fn read_concerns_one_handle(self, h: nat, limit: nat, waker: W)
        requires
            self.incoming.contains_key(h),
        ensures
            ({
                let after = self.read(h, limit, waker);
                &&& after == (MultiplexerView { incoming: after.incoming, ..self })
                &&& after.accept_waker == self.accept_waker
                &&& forall|x: nat| #[trigger]
                    after.incoming.contains_key(x) <==> self.incoming.contains_key(x)
                &&& forall|x: nat|
                    x != h && self.incoming.contains_key(x) ==> #[trigger] after.incoming[x]
                        == self.incoming[x]
                &&& after.incoming[h] == self.incoming[h].after_read(limit, waker)
            }),
    {
    }

    /// Giving up a handle takes its state away, and ends its substream if it is
    /// still active under its ID. Nothing else changes.
    pub proof fn release_concerns_one_handle(self, s: StreamView)
        requires
            self.inv(),
            self.incoming.contains_key(s.handle),
            self.incoming[s.handle].id == s.id,
        ensures
            ({
                let after = self.release(s);
                let active = self.streams.contains_key(s.id.0) && self.streams[s.id.0] == s.handle;
                &&& after == (MultiplexerView {
                    streams: after.streams,
                    incoming: after.incoming,
                    ..self
                })
                &&& forall|x: nat| #[trigger]
                    after.incoming.contains_key(x) <==> self.incoming.contains_key(x) && x
                        != s.handle
                &&& forall|x: nat|
                    x != s.handle && self.incoming.contains_key(x) ==> #[trigger] after.incoming[x]
                        == self.incoming[x]
                &&& forall|x: u32| #[trigger]
                    after.streams.contains_key(x) <==> self.streams.contains_key(x) && !(active
                        && x == s.id.0)
                &&& forall|x: u32| #[trigger]
                    after.streams.contains_key(x) ==> after.streams[x] == self.streams[x]
                &&& self.attached(s.handle) == active
                &&& self.detach(s).incoming[s.handle].chunks == self.incoming[s.handle].chunks
                &&& active ==> self.detach(s).incoming[s.handle].closed
                    && self.detach(s).incoming[s.handle].read_waker is None
                &&& !active ==> self.detach(s).incoming[s.handle] == self.incoming[s.handle]
            }),
    {
    }

    /// A frame is refused if and only if the session was shut down or the
    /// payload has more than 16 MiB.
    pub proof fn refused_only_for_a_reason(self, frame: FrameView)
        ensures
            self.refusal(frame) is None <==> !self.closed && frame.payload.len() <= 16 * 1024
                * 1024,
            self.closed ==> self.refusal(frame) == Some(Error::BrokenPipe),
            !self.closed && frame.payload.len() > 16 * 1024 * 1024 ==> self.refusal(frame) == Some(
                Error::Unencodable,
            ),
    {
    }

    /// Sending hands over the encoding of the frame, once and behind all
    /// others, in every session that was not shut down and for every payload of
    /// at most 16 MiB. It then fails only where the channel did not take the
    /// frame. Otherwise nothing is handed over. Nothing else changes.
    pub proof fn sending_hands_the_frame_over(
        self,
        frame: FrameView,
        result: Result<(), Error>,
        after: Self,
    )
        requires
            self.sends(frame, result, after),
        ensures
            after == (MultiplexerView { queued: after.queued, offered: after.offered, ..self }),
            !self.closed && frame.payload.len() <= 16 * 1024 * 1024 ==> ({
                &&& after.offered.len() == self.offered.len() + 1
                &&& after.offered.last() == frame.wire()
                &&& after.offered.drop_last() == self.offered
                &&& result is Ok ==> ({
                    &&& after.queued.len() == self.queued.len() + 1
                    &&& after.queued.last() == frame.wire()
                    &&& after.queued.drop_last() == self.queued
                })
                &&& result is Err ==> result == Err::<(), Error>(Error::BrokenPipe) && after.queued
                    == self.queued
            }),
            self.closed ==> result == Err::<(), Error>(Error::BrokenPipe) && after == self,
            !self.closed && frame.payload.len() > 16 * 1024 * 1024 ==> result == Err::<(), Error>(
                Error::Unencodable,
            ) && after == self,
    {
        assert(self.offered.push(frame.wire()).drop_last() =~= self.offered);
        assert(self.queued.push(frame.wire()).drop_last() =~= self.queued);
    }

    /// The two ways in which a frame that was handed over can fare.
    pub proof fn taken_or_not(self, frame: FrameView)
        ensures
            ({
                let after = self.send(frame);
                &&& after == (MultiplexerView {
                    queued: after.queued,
                    offered: after.offered,
                    ..self
                })
                &&& after.queued == self.queued.push(frame.wire())
                &&& after.offered == self.offered.push(frame.wire())
            }),
            ({
                let after = self.send_late(frame);
                &&& after == (MultiplexerView { offered: after.offered, ..self })
                &&& after.offered == self.offered.push(frame.wire())
            }),
    {
    }

    /// The peer is told of the end of a substream by one `Close` frame with its
    /// ID, unless it was told before or the session was shut down. Nothing else
    /// changes.
    pub proof fn close_is_told_once(self, s: StreamView, after: Self)
        requires
            s.sends_close(self, after),
        ensures
            after == (MultiplexerView { queued: after.queued, offered: after.offered, ..self }),
            s.outgoing_closed || self.closed ==> after == self,
            !s.outgoing_closed && !self.closed ==> ({
                let told = after.offered.last();
                &&& after.offered.len() == self.offered.len() + 1
                &&& after.offered.drop_last() == self.offered
                &&& told.len() == 9
                &&& told[0] == 0x04
                &&& told[1] * 0x100_0000 + told[2] * 0x1_0000 + told[3] * 0x100 + told[4] == s.id.0
                &&& after.queued == self.queued || after.queued == self.queued.push(told)
            }),
    {
        let frame = FrameView::close(s.id);
        encoding_is_laid_out(frame);
        assert(self.offered.push(frame.wire()).drop_last() =~= self.offered);
    }

    /// What it means that a handle is in use, or that frames reach it.
    pub proof fn handles_in_use(self, s: StreamView, id: u32)
        ensures
            self.lent(s) ==> self.incoming.contains_key(s.handle) && self.incoming[s.handle].id
                == s.id,
            self.lent(s) ==> forall|i: int|
                0 <= i < self.new_streams.len() ==> (#[trigger] self.new_streams[i]).handle
                    != s.handle,
            self.streams.contains_key(id) ==> self.reader_of(id)
                == self.incoming[self.streams[id]].read_waker,
            !self.streams.contains_key(id) ==> self.reader_of(id) is None,
    {
    }
}

impl<W> Multiplexer<W> {
    /// A session that keeps the handles of an earlier one can be used through
    /// each of them; one that keeps all but one, through all others.
    pub proof fn kept_handles_stay_usable(self, before: Self, s: Stream, handle: nat)
        requires
            before.owns(s),
        ensures
            self.keeps(before) ==> self.owns(s),
            self.keeps_but(before, handle) && s@.handle != handle ==> self.owns(s),
    {
    }
}

} // verus!
