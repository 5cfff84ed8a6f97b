//! What holds of a session as a whole, whatever happens in it.
use vstd::prelude::*;

use crate::frame::{Flag, FrameView, StreamId};
use crate::incoming::Poll;
use crate::mplex::MultiplexerView;
use crate::stream::StreamView;

verus! {

/// One thing that can happen in a session. Every operation on a session is
/// made up of these.
pub enum Act<W> {
    /// A frame from the peer is applied.
    Receive(FrameView),
    /// A handle is read from.
    Read { handle: nat, limit: nat, waker: W },
    /// A substream of this side's own becomes active.
    Open,
    /// A frame is handed to the task that drives the transport.
    Send(FrameView),
    /// A frame is handed over too late.
    SendLate(FrameView),
    /// A substream that the peer opened is handed out.
    Accept,
    /// Someone waits for the peer to open a substream.
    Wait(W),
    /// A substream is closed on this side.
    Close(StreamId),
    /// A handle is given up, be it only because the peer will not hear of its
    /// substream.
    Release(StreamView),
    /// The session is closed, because it was shut down or the transport ended.
    /// A `GoAway` from the peer has the same effect.
    CloseAll,
    /// The task that drives the transport is told to stop.
    Signal,
}

impl<W> MultiplexerView<W> {
    /// What an act needs: handles that are in use; to hand a frame over, a
    /// session that was not shut down and a frame that can be encoded; and, to
    /// wait, that there is nothing to be had at once.
    pub open spec fn allows(self, act: Act<W>) -> bool {
        match act {
            Act::Read { handle, .. } => self.incoming.contains_key(handle),
            Act::Send(frame) => self.refusal(frame) is None,
            Act::SendLate(frame) => self.refusal(frame) is None,
            Act::Wait(_) => self.new_streams.len() == 0 && !self.closed,
            Act::Release(s) => self.lent(s),
            _ => true,
        }
    }

    /// What an act does.
    pub open spec fn after(self, act: Act<W>) -> Self {
        match act {
            Act::Receive(frame) => self.dispatch(frame),
            Act::Read { handle, limit, waker } => self.read(handle, limit, waker),
            Act::Open => if self.closed {
                self
            } else {
                self.begin_open()
            },
            Act::Send(frame) => self.send(frame),
            Act::SendLate(frame) => self.send_late(frame),
            Act::Accept => if self.new_streams.len() > 0 {
                MultiplexerView { new_streams: self.new_streams.drop_first(), ..self }
            } else {
                self
            },
            Act::Wait(waker) => MultiplexerView { accept_waker: Some(waker), ..self },
            Act::Close(id) => self.close_stream(id.0),
            Act::Release(s) => self.release(s),
            Act::CloseAll => self.close_all(),
            Act::Signal => MultiplexerView { signalled: true, ..self },
        }
    }

    /// What acts need, one after the other.
    pub open spec fn allows_all(self, acts: Seq<Act<W>>) -> bool
        decreases acts.len(),
    {
        acts.len() > 0 ==> self.allows(acts.first()) && self.after(acts.first()).allows_all(
            acts.drop_first(),
        )
    }

    /// What acts do, one after the other.
    pub open spec fn after_all(self, acts: Seq<Act<W>>) -> Self
        decreases acts.len(),
    {
        if acts.len() == 0 {
            self
        } else {
            self.after(acts.first()).after_all(acts.drop_first())
        }
    }

    /// An act keeps the invariant.
    pub proof fn act_keeps_inv(self, act: Act<W>)
        requires
            self.inv(),
            self.allows(act),
        ensures
            self.after(act).inv(),
    {
        match act {
            Act::Accept => {
                if self.new_streams.len() > 0 {
                    let rest = self.new_streams.drop_first();
                    assert forall|i: int| 0 <= i < rest.len() implies #[trigger] rest[i]
                        == self.new_streams[i + 1] by {}
                }
            },
            Act::Read { handle, limit, waker } => {
                self.incoming[handle].read_leaves_no_empty_chunk(limit, waker);
            },
            _ => {},
        }
    }

    /// Whatever happens, the invariant holds.
    pub proof fn acts_keep_inv(self, acts: Seq<Act<W>>)
        requires
            self.inv(),
            self.allows_all(acts),
        ensures
            self.after_all(acts).inv(),
        decreases acts.len(),
    {
        if acts.len() > 0 {
            self.act_keeps_inv(acts.first());
            self.after(acts.first()).acts_keep_inv(acts.drop_first());
        }
    }

    /// The bytes that one act hands out to the reader of `h`.
    pub open spec fn read_by(self, act: Act<W>, h: nat) -> Seq<u8> {
        match act {
            Act::Read { handle, limit, .. } => if handle == h {
                match self.incoming[h].read_result(limit) {
                    Poll::Ready(bytes) => bytes,
                    Poll::Pending => Seq::empty(),
                }
            } else {
                Seq::empty()
            },
            _ => Seq::empty(),
        }
    }

    /// The bytes that acts hand out to the reader of `h`.
    pub open spec fn read_by_all(self, acts: Seq<Act<W>>, h: nat) -> Seq<u8>
        decreases acts.len(),
    {
        if acts.len() == 0 {
            Seq::empty()
        } else {
            self.read_by(acts.first(), h) + self.after(acts.first()).read_by_all(
                acts.drop_first(),
                h,
            )
        }
    }

    /// The bytes that one act brings in for `h`: the payload of a `Data` frame
    /// on its substream, while the substream is active.
    pub open spec fn brought_by(self, act: Act<W>, h: nat) -> Seq<u8> {
        match act {
            Act::Receive(frame) => if frame.flag == Flag::Data && self.attached(h)
                && self.incoming[h].id == frame.stream_id {
                frame.payload
            } else {
                Seq::empty()
            },
            _ => Seq::empty(),
        }
    }

    /// The bytes that acts bring in for `h`.
    pub open spec fn brought_by_all(self, acts: Seq<Act<W>>, h: nat) -> Seq<u8>
        decreases acts.len(),
    {
        if acts.len() == 0 {
            Seq::empty()
        } else {
            self.brought_by(acts.first(), h) + self.after(acts.first()).brought_by_all(
                acts.drop_first(),
                h,
            )
        }
    }

    /// An act that does not give up a handle.
    pub open spec fn spares(act: Act<W>, h: nat) -> bool {
        match act {
            Act::Release(s) => s.handle != h,
            _ => true,
        }
    }

    /// Acts that spare a handle do so without the first of them too.
    proof fn rest_is_spared(acts: Seq<Act<W>>, h: nat)
        requires
            acts.len() > 0,
            forall|i: int| 0 <= i < acts.len() ==> Self::spares(#[trigger] acts[i], h),
        ensures
            Self::spares(acts.first(), h),
            forall|i: int|
                0 <= i < acts.drop_first().len() ==> Self::spares(
                    #[trigger] acts.drop_first()[i],
                    h,
                ),
    {
        let rest = acts.drop_first();
        assert(acts.first() == acts[0]);
        assert forall|i: int| 0 <= i < rest.len() implies Self::spares(#[trigger] rest[i], h) by {
            assert(rest[i] == acts[i + 1]);
        }
    }

    /// What one act hands out to the reader of `h`, followed by what is then
    /// unread, is what was unread before, followed by what the act brings in.
    pub proof fn act_loses_nothing(self, act: Act<W>, h: nat)
        requires
            self.inv(),
            self.allows(act),
            self.incoming.contains_key(h),
            Self::spares(act, h),
        ensures
            self.after(act).incoming.contains_key(h),
            self.after(act).incoming[h].id == self.incoming[h].id,
            self.read_by(act, h) + self.after(act).incoming[h].unread()
                == self.incoming[h].unread() + self.brought_by(act, h),
    {
        let unread = self.incoming[h].unread();
        assert(Seq::<u8>::empty() + unread =~= unread);
        assert(unread + Seq::<u8>::empty() =~= unread);
        match act {
            Act::Read { handle, limit, waker } => {
                if handle == h {
                    self.incoming[h].read_in_order(limit, waker);
                    assert(Seq::<u8>::empty() + Seq::<u8>::empty() =~= Seq::<u8>::empty());
                }
            },
            Act::Receive(frame) => {
                if frame.flag == Flag::Data {
                    self.incoming[h].arrival_in_order(frame.payload);
                    assert(Seq::<u8>::empty() + (unread + frame.payload) =~= unread
                        + frame.payload);
                }
            },
            _ => {},
        }
    }

    /// Nothing is lost, made up, changed or taken out of order on a substream,
    /// however frames, reads and everything else follow one another: what has
    /// been read of `h`, followed by what is unread, is what was unread at
    /// first, followed by what arrived since.
    pub proof fn nothing_is_lost(self, acts: Seq<Act<W>>, h: nat)
        requires
            self.inv(),
            self.allows_all(acts),
            self.incoming.contains_key(h),
            forall|i: int| 0 <= i < acts.len() ==> Self::spares(#[trigger] acts[i], h),
        ensures
            self.after_all(acts).incoming.contains_key(h),
            self.read_by_all(acts, h) + self.after_all(acts).incoming[h].unread()
                == self.incoming[h].unread() + self.brought_by_all(acts, h),
        decreases acts.len(),
    {
        let unread = self.incoming[h].unread();
        if acts.len() == 0 {
            assert(Seq::<u8>::empty() + unread =~= unread + Seq::<u8>::empty());
        } else {
            let act = acts.first();
            let rest = acts.drop_first();
            Self::rest_is_spared(acts, h);
            self.act_keeps_inv(act);
            self.act_loses_nothing(act, h);
            let next = self.after(act);
            next.nothing_is_lost(rest, h);
            let last = self.after_all(acts).incoming[h].unread();
            assert(self.read_by_all(acts, h) + last =~= self.read_by(act, h) + (next.read_by_all(
                rest,
                h,
            ) + last));
            assert(self.read_by(act, h) + (next.incoming[h].unread() + next.brought_by_all(rest, h))
                =~= (self.read_by(act, h) + next.incoming[h].unread()) + next.brought_by_all(
                rest,
                h,
            ));
            assert(self.read_by_all(acts, h) + last =~= unread + self.brought_by_all(acts, h));
        }
    }
}

/// The frames from the peer among acts, in order.
pub open spec fn received<W>(acts: Seq<Act<W>>) -> Seq<FrameView>
    decreases acts.len(),
{
    if acts.len() == 0 {
        Seq::empty()
    } else {
        (match acts.first() {
            Act::Receive(frame) => seq![frame],
            _ => Seq::empty(),
        }) + received(acts.drop_first())
    }
}

/// The bytes that frames carry on one substream.
pub open spec fn payload_on(frames: Seq<FrameView>, id: StreamId) -> Seq<u8>
    decreases frames.len(),
{
    if frames.len() == 0 {
        Seq::empty()
    } else {
        (if frames.first().flag == Flag::Data && frames.first().stream_id == id {
            frames.first().payload
        } else {
            Seq::empty()
        }) + payload_on(frames.drop_first(), id)
    }
}

/// What is received in two stretches.
pub proof fn received_in_parts<W>(first: Seq<Act<W>>, second: Seq<Act<W>>)
    ensures
        received(first + second) == received(first) + received(second),
    decreases first.len(),
{
    if first.len() == 0 {
        assert(first + second =~= second);
        assert(received(first) + received(second) =~= received(second));
    } else {
        assert((first + second).drop_first() =~= first.drop_first() + second);
        received_in_parts(first.drop_first(), second);
        assert((first + second).first() == first.first());
        assert(received(first + second) =~= received(first) + received(second));
    }
}

/// What is carried in two stretches.
pub proof fn payload_in_parts(first: Seq<FrameView>, second: Seq<FrameView>, id: StreamId)
    ensures
        payload_on(first + second, id) == payload_on(first, id) + payload_on(second, id),
    decreases first.len(),
{
    if first.len() == 0 {
        assert(first + second =~= second);
        assert(payload_on(first, id) + payload_on(second, id) =~= payload_on(second, id));
    } else {
        assert((first + second).drop_first() =~= first.drop_first() + second);
        payload_in_parts(first.drop_first(), second, id);
        assert((first + second).first() == first.first());
        assert(payload_on(first + second, id) =~= payload_on(first, id) + payload_on(second, id));
    }
}

impl<W> MultiplexerView<W> {
    /// A substream that was cut off from its handle stays so.
    proof fn act_attaches_nothing(self, act: Act<W>, h: nat)
        requires
            self.inv(),
            self.allows(act),
            self.incoming.contains_key(h),
            Self::spares(act, h),
            !self.attached(h),
        ensures
            !self.after(act).attached(h),
    {
        self.act_loses_nothing(act, h);
    }

    /// Once cut off, a handle gets nothing more.
    proof fn detached_gets_nothing(self, acts: Seq<Act<W>>, h: nat)
        requires
            self.inv(),
            self.allows_all(acts),
            self.incoming.contains_key(h),
            forall|i: int| 0 <= i < acts.len() ==> Self::spares(#[trigger] acts[i], h),
            !self.attached(h),
        ensures
            self.brought_by_all(acts, h) == Seq::<u8>::empty(),
        decreases acts.len(),
    {
        if acts.len() > 0 {
            let act = acts.first();
            let rest = acts.drop_first();
            Self::rest_is_spared(acts, h);
            self.act_keeps_inv(act);
            self.act_loses_nothing(act, h);
            self.act_attaches_nothing(act, h);
            self.after(act).detached_gets_nothing(rest, h);
            assert(self.brought_by_all(acts, h) =~= Seq::<u8>::empty());
        }
    }

    /// What arrives for a handle is what the frames that were received carry on
    /// its substream, up to the point where it is cut off.
    pub proof fn arrivals_are_a_prefix(self, acts: Seq<Act<W>>, h: nat)
        requires
            self.inv(),
            self.allows_all(acts),
            self.incoming.contains_key(h),
            forall|i: int| 0 <= i < acts.len() ==> Self::spares(#[trigger] acts[i], h),
        ensures
            self.brought_by_all(acts, h).is_prefix_of(
                payload_on(received(acts), self.incoming[h].id),
            ),
        decreases acts.len(),
    {
        let id = self.incoming[h].id;
        if acts.len() > 0 {
            if !self.attached(h) {
                self.detached_gets_nothing(acts, h);
            } else {
                let act = acts.first();
                let rest = acts.drop_first();
                Self::rest_is_spared(acts, h);
                self.act_keeps_inv(act);
                self.act_loses_nothing(act, h);
                let next = self.after(act);
                next.arrivals_are_a_prefix(rest, h);
                match act {
                    Act::Receive(frame) => {
                        let all = seq![frame] + received(rest);
                        assert(all.first() == frame);
                        assert(all.drop_first() =~= received(rest));
                        let now = self.brought_by(act, h);
                        let got = next.brought_by_all(rest, h);
                        let carried = payload_on(received(rest), id);
                        assert(got == carried.take(got.len() as int));
                        assert(now + got =~= (now + carried).take((now + got).len() as int));
                    },
                    _ => {
                        assert(received(acts) =~= received(rest));
                        assert(self.brought_by_all(acts, h) =~= next.brought_by_all(rest, h));
                    },
                }
            }
        }
    }

    /// An act that leaves a substream active, or is the peer's `Close` of it,
    /// or gives up a handle.
    pub open spec fn calm(self, act: Act<W>, id: StreamId) -> bool {
        match act {
            Act::Receive(frame) => match frame.flag {
                Flag::Open => frame.stream_id != id,
                Flag::GoAway => false,
                _ => true,
            },
            Act::Open => self.closed || self.next_id != id.0,
            Act::Close(closing) => closing != id,
            Act::CloseAll => false,
            _ => true,
        }
    }

    /// Nothing but the peer's `Close` ends a substream. What happens after the
    /// `Close` makes no difference.
    pub open spec fn undisturbed(self, acts: Seq<Act<W>>, id: StreamId) -> bool
        decreases acts.len(),
    {
        acts.len() > 0 && !closes(acts.first(), id) ==> self.calm(acts.first(), id)
            && self.after(acts.first()).undisturbed(acts.drop_first(), id)
    }

    /// A calm act that spares a handle detaches nothing but by a `Close`, which
    /// also marks the end.
    proof fn calm_act_keeps(self, act: Act<W>, h: nat)
        requires
            self.inv(),
            self.allows(act),
            self.attached(h),
            self.calm(act, self.incoming[h].id),
            Self::spares(act, h),
        ensures
            self.after(act).incoming.contains_key(h),
            self.after(act).incoming[h].id == self.incoming[h].id,
            if closes(act, self.incoming[h].id) {
                self.after(act).incoming[h].closed && !self.after(act).attached(h)
            } else {
                self.after(act).attached(h)
            },
    {
    }

    /// The end of a substream is final.
    proof fn end_is_final(self, acts: Seq<Act<W>>, h: nat)
        requires
            self.inv(),
            self.allows_all(acts),
            self.incoming.contains_key(h),
            forall|i: int| 0 <= i < acts.len() ==> Self::spares(#[trigger] acts[i], h),
            self.incoming[h].closed,
        ensures
            self.after_all(acts).incoming.contains_key(h),
            self.after_all(acts).incoming[h].closed,
        decreases acts.len(),
    {
        if acts.len() > 0 {
            let act = acts.first();
            let rest = acts.drop_first();
            Self::rest_is_spared(acts, h);
            self.act_keeps_inv(act);
            self.after(act).end_is_final(rest, h);
        }
    }

    /// On a substream that nothing but the peer's `Close` ends, everything
    /// arrives that the frames carry, and the end is seen if and only if the
    /// `Close` came.
    pub proof fn calm_delivery(self, acts: Seq<Act<W>>, h: nat)
        requires
            self.inv(),
            self.allows_all(acts),
            self.attached(h),
            forall|i: int| 0 <= i < acts.len() ==> Self::spares(#[trigger] acts[i], h),
            self.undisturbed(acts, self.incoming[h].id),
            orderly(received(acts), self.incoming[h].id),
        ensures
            self.brought_by_all(acts, h) == payload_on(received(acts), self.incoming[h].id),
            self.after_all(acts).incoming.contains_key(h),
            self.after_all(acts).incoming[h].closed <==> has_close(
                received(acts),
                self.incoming[h].id,
            ),
        decreases acts.len(),
    {
        let id = self.incoming[h].id;
        if acts.len() > 0 {
            let act = acts.first();
            let rest = acts.drop_first();
            Self::rest_is_spared(acts, h);
            self.act_keeps_inv(act);
            self.calm_act_keeps(act, h);
            let next = self.after(act);
            let now = received(acts);
            let later = received(rest);
            match act {
                Act::Receive(frame) => {
                    assert(now.first() == frame);
                    assert(now.drop_first() =~= later);
                    assert forall|i: int| 0 <= i < later.len() implies later[i] == now[i + 1] by {}
                    if closes(act, id) {
                        next.detached_gets_nothing(rest, h);
                        next.end_is_final(rest, h);
                        assert(is_close(now[0], id));
                        assert forall|i: int| 0 <= i < later.len() implies !is_data(
                            #[trigger] later[i],
                            id,
                        ) by {
                            assert(later[i] == now[i + 1]);
                        }
                        no_data_no_payload(later, id);
                    } else {
                        tail_is_orderly(now, id);
                        next.calm_delivery(rest, h);
                        if has_close(now, id) {
                            let i = choose|i: int| 0 <= i < now.len() && is_close(now[i], id);
                            assert(is_close(later[i - 1], id));
                        }
                        if has_close(later, id) {
                            let i = choose|i: int| 0 <= i < later.len() && is_close(later[i], id);
                            assert(is_close(now[i + 1], id));
                        }
                    }
                },
                _ => {
                    assert(now =~= later);
                    next.calm_delivery(rest, h);
                },
            }
            assert(self.brought_by_all(acts, h) =~= payload_on(now, id));
        }
    }
}

/// A `Data` frame on a substream.
pub open spec fn is_data(frame: FrameView, id: StreamId) -> bool {
    frame.flag == Flag::Data && frame.stream_id == id
}

/// A `Close` frame of a substream.
pub open spec fn is_close(frame: FrameView, id: StreamId) -> bool {
    frame.flag == Flag::Close && frame.stream_id == id
}

/// The peer's `Close` of a substream.
pub open spec fn closes<W>(act: Act<W>, id: StreamId) -> bool {
    act matches Act::Receive(frame) && is_close(frame, id)
}

/// A substream is closed by one of the frames.
pub open spec fn has_close(frames: Seq<FrameView>, id: StreamId) -> bool {
    exists|i: int| 0 <= i < frames.len() && is_close(#[trigger] frames[i], id)
}

/// Nothing is sent on a substream after its `Close`.
pub open spec fn orderly(frames: Seq<FrameView>, id: StreamId) -> bool {
    forall|i: int, j: int|
        0 <= i < j < frames.len() && is_close(#[trigger] frames[i], id) ==> !is_data(
            #[trigger] frames[j],
            id,
        )
}

/// Frames that are orderly stay so without the first one.
proof fn tail_is_orderly(frames: Seq<FrameView>, id: StreamId)
    requires
        frames.len() > 0,
        orderly(frames, id),
    ensures
        orderly(frames.drop_first(), id),
{
    let tail = frames.drop_first();
    assert forall|i: int, j: int|
        0 <= i < j < tail.len() && is_close(#[trigger] tail[i], id) implies !is_data(
        #[trigger] tail[j],
        id,
    ) by {
        assert(tail[i] == frames[i + 1] && tail[j] == frames[j + 1]);
    }
}

/// Frames without `Data` on a substream carry nothing on it.
proof fn no_data_no_payload(frames: Seq<FrameView>, id: StreamId)
    requires
        forall|i: int| 0 <= i < frames.len() ==> !is_data(#[trigger] frames[i], id),
    ensures
        payload_on(frames, id) == Seq::<u8>::empty(),
    decreases frames.len(),
{
    if frames.len() > 0 {
        let tail = frames.drop_first();
        assert(frames.first() == frames[0]);
        assert forall|i: int| 0 <= i < tail.len() implies !is_data(#[trigger] tail[i], id) by {
            assert(tail[i] == frames[i + 1]);
        }
        no_data_no_payload(tail, id);
        assert(payload_on(frames, id) =~= Seq::<u8>::empty());
    }
}

/// The front of orderly frames is orderly; and where a substream is closed
/// within it, it carries all that is carried on the substream.
pub proof fn closed_front_carries_all(some: Seq<FrameView>, all: Seq<FrameView>, id: StreamId)
    requires
        some.is_prefix_of(all),
        orderly(all, id),
    ensures
        orderly(some, id),
        has_close(some, id) ==> has_close(all, id) && payload_on(some, id) == payload_on(all, id),
{
    assert forall|i: int| 0 <= i < some.len() implies some[i] == all[i] by {}
    if has_close(some, id) {
        let c = choose|c: int| 0 <= c < some.len() && is_close(some[c], id);
        let tail = all.skip(some.len() as int);
        assert(is_close(all[c], id));
        assert(all =~= some + tail);
        assert forall|i: int| 0 <= i < tail.len() implies !is_data(#[trigger] tail[i], id) by {
            assert(tail[i] == all[i + some.len()]);
        }
        no_data_no_payload(tail, id);
        payload_in_parts(some, tail, id);
        assert(payload_on(some, id) + Seq::<u8>::empty() =~= payload_on(some, id));
    }
}

} // verus!
