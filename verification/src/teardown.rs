//! How substreams and sessions end, and what is left of them.
use vstd::prelude::*;

use crate::delivery::sent;
use crate::error::Error;
use crate::frame::{be_round_trip, Flag, FrameView, StreamId};
use crate::incoming::{IncomingView, Poll};
use crate::mplex::{readers_of, MultiplexerView};
use crate::session::Act;
use crate::stream::StreamView;

verus! {

impl<W> IncomingView<W> {
    /// A read of a closed substream never waits.
    pub proof fn closed_never_waits(self, limit: nat)
        requires
            self.closed,
        ensures
            self.read_result(limit) is Ready,
    {
    }
}

impl<W> MultiplexerView<W> {
    /// Shutting a session down closes every substream for every handle, and
    /// loses nothing that has arrived. Nobody waits any more, and nothing is
    /// sent.
    pub proof fn close_all_ends_everything(self)
        requires
            self.inv(),
        ensures
            self.close_all().inv(),
            self.close_all().closed,
            self.close_all().streams == Map::<u32, nat>::empty(),
            self.close_all().accept_waker is None,
            self.close_all().incoming.dom() == self.incoming.dom(),
            forall|h: nat| #[trigger]
                self.incoming.contains_key(h) ==> ({
                    let state = self.close_all().incoming[h];
                    &&& state.closed
                    &&& state.read_waker is None
                    &&& state.chunks == self.incoming[h].chunks
                    &&& state.id == self.incoming[h].id
                }),
            self.close_all().new_streams == self.new_streams,
            self.close_all().queued == self.queued,
            self.close_all().goaway_reason == self.goaway_reason,
    {
        assert(self.close_all().incoming.dom() =~= self.incoming.dom());
    }

    /// Shutting a session down again changes nothing, and wakes nobody.
    pub proof fn close_all_is_idempotent(self, wakers: Seq<W>)
        ensures
            self.close_all().close_all() == self.close_all(),
            self.shutdown().shutdown() == self.shutdown(),
            self.close_all().all_readers(wakers) ==> wakers == Seq::<W>::empty(),
    {
        let down = self.close_all();
        assert(down.close_all().incoming =~= down.incoming);
        assert(down.close_all().streams =~= down.streams);
        assert(self.shutdown().shutdown().incoming =~= self.shutdown().incoming);
        assert(self.shutdown().shutdown().streams =~= self.shutdown().streams);
        if down.all_readers(wakers) {
            let order = choose|order: Seq<nat>|
                {
                    &&& order.no_duplicates()
                    &&& forall|h: nat| #[trigger]
                        order.contains(h) <==> down.incoming.contains_key(h)
                    &&& wakers == #[trigger] readers_of(down.incoming, order)
                };
            assert forall|i: int| 0 <= i < order.len() implies down.incoming[
                #[trigger] order[i]].read_waker is None by {
                assert(order.contains(order[i]));
            }
            no_readers(down.incoming, order);
        }
    }

    /// A session that was shut down stays so.
    pub proof fn closed_is_final(self, acts: Seq<Act<W>>)
        requires
            self.closed,
        ensures
            self.after_all(acts).closed,
        decreases acts.len(),
    {
        if acts.len() > 0 {
            self.after(acts.first()).closed_is_final(acts.drop_first());
        }
    }

    /// Once a session was shut down, frames are refused as on a broken pipe,
    /// nothing more is handed to the task that drives the transport, and no
    /// substream becomes active, whichever side opens it.
    pub proof fn closed_refuses(self, frame: FrameView, acts: Seq<Act<W>>)
        requires
            self.inv(),
            self.closed,
            self.allows_all(acts),
        ensures
            self.refusal(frame) == Some(Error::BrokenPipe),
            frame.flag == Flag::Open ==> self.dispatch(frame) == self,
            self.after(Act::Open) == self,
            sent(acts) == Seq::<FrameView>::empty(),
            self.after_all(acts).queued == self.queued,
            self.after_all(acts).streams == Map::<u32, nat>::empty(),
        decreases acts.len(),
    {
        if acts.len() > 0 {
            let act = acts.first();
            self.act_keeps_inv(act);
            self.after(act).closed_refuses(frame, acts.drop_first());
            assert(sent(acts) =~= Seq::<FrameView>::empty());
        }
    }

    /// The peer's `GoAway` shuts the session down, whatever it carries: it does
    /// what a shutdown of this side's does, but for the reason. No substream
    /// can be opened and nothing can be sent after it.
    pub proof fn goaway_tears_down(self, frame: FrameView, other: FrameView)
        requires
            frame.flag == Flag::GoAway,
        ensures
            self.dispatch(frame) == (MultiplexerView {
                goaway_reason: self.dispatch(frame).goaway_reason,
                ..self.close_all()
            }),
            self.dispatch(frame).closed,
            self.dispatch(frame).after(Act::Open) == self.dispatch(frame),
            self.dispatch(frame).refusal(other) == Some(Error::BrokenPipe),
    {
    }

    /// The reason of the peer's `GoAway` can be told from then on.
    pub proof fn goaway_is_understood(self, reason: u32)
        ensures
            self.dispatch(FrameView::goaway(reason)).goaway_reason == Some(reason),
    {
        be_round_trip(reason);
        let payload = FrameView::goaway(reason).payload;
        assert(payload.take(4) =~= payload);
    }

    /// The reason comes from a `GoAway` of the peer and from nowhere else. One
    /// whose payload is too short leaves it as it was.
    pub proof fn reason_is_the_peers(self, act: Act<W>)
        ensures
            match act {
                Act::Receive(frame) => frame.flag == Flag::GoAway && frame.payload.len() >= 4
                    || self.after(act).goaway_reason == self.goaway_reason,
                _ => self.after(act).goaway_reason == self.goaway_reason,
            },
    {
    }

    /// A substream that the peer opens and closes without sending anything
    /// reads as ended.
    pub proof fn open_then_close_is_the_end(self, id: StreamId, limit: nat)
        requires
            self.inv(),
            !self.closed,
        ensures
            ({
                let ended = self.dispatch(FrameView::open(id)).dispatch(FrameView::close(id));
                &&& ended.incoming.contains_key(self.next_handle)
                &&& ended.incoming[self.next_handle].read_result(limit) == Poll::Ready(
                    Seq::<u8>::empty(),
                )
            }),
    {
    }

    /// Giving a handle up reclaims what is kept for its substream, and frames
    /// on the substream have no effect from then on, until it is opened again.
    pub proof fn release_reclaims(self, s: StreamView, frame: FrameView)
        requires
            self.inv(),
            self.lent(s),
            frame.stream_id == s.id,
            frame.flag == Flag::Data || frame.flag == Flag::Close,
        ensures
            !self.release(s).incoming.contains_key(s.handle),
            self.attached(s.handle) ==> !self.release(s).streams.contains_key(s.id.0),
            !self.release(s).streams.contains_key(s.id.0) ==> self.release(s).dispatch(frame)
                == self.release(s),
    {
    }

    /// Giving a handle up touches no other one, not even that of a newer
    /// substream with the same identifier.
    pub proof fn release_spares_others(self, s: StreamView, h: nat)
        requires
            self.inv(),
            self.lent(s),
            self.incoming.contains_key(h),
            h != s.handle,
        ensures
            self.release(s).incoming.contains_key(h),
            self.release(s).incoming[h] == self.incoming[h],
            self.release(s).attached(h) == self.attached(h),
    {
    }

    /// Opening a substream and giving it up again leaves nothing behind but the
    /// ID that it took up.
    pub proof fn release_undoes_open(self)
        requires
            self.inv(),
            !self.streams.contains_key(self.next_id),
        ensures
            self.begin_open().release(self.opening()) == (MultiplexerView {
                next_id: self.side.next_id(self.next_id),
                next_handle: self.next_handle + 1,
                ..self
            }),
    {
        let undone = self.begin_open().release(self.opening());
        assert(undone.streams =~= self.streams);
        assert(undone.incoming =~= self.incoming);
    }
}

/// Where nobody waits, there is nobody to wake.
proof fn no_readers<W>(incoming: Map<nat, IncomingView<W>>, order: Seq<nat>)
    requires
        forall|i: int| 0 <= i < order.len() ==> incoming[#[trigger] order[i]].read_waker is None,
    ensures
        readers_of(incoming, order) == Seq::<W>::empty(),
    decreases order.len(),
{
    if order.len() > 0 {
        let rest = order.drop_last();
        assert(order.last() == order[order.len() - 1]);
        assert forall|i: int| 0 <= i < rest.len() implies incoming[
            #[trigger] rest[i]].read_waker is None by {
            assert(rest[i] == order[i]);
        }
        no_readers(incoming, rest);
        assert(readers_of(incoming, order) =~= Seq::<W>::empty());
    }
}

} // verus!
