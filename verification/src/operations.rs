//! Every operation on a session is made up of acts.
use vstd::prelude::*;

use crate::delivery::{sent, sent_by};
use crate::drive::{DriveView, EventView};
use crate::error::Error;
use crate::frame::{FrameView, StreamId, MAX_FRAME_PAYLOAD};
use crate::mplex::MultiplexerView;
use crate::run::receipts;
use crate::session::{is_close, is_data, orderly, payload_in_parts, payload_on, received, Act};
use crate::stream::StreamView;

verus! {

impl<W> MultiplexerView<W> {
    /// What acts do begins with what the first of them does.
    proof fn first_act(self, act: Act<W>, rest: Seq<Act<W>>)
        ensures
            self.allows_all(seq![act] + rest) <==> self.allows(act) && self.after(act).allows_all(
                rest,
            ),
            self.after_all(seq![act] + rest) == self.after(act).after_all(rest),
            sent(seq![act] + rest) == sent_by(act) + sent(rest),
    {
        let acts = seq![act] + rest;
        assert(acts.first() == act);
        assert(acts.drop_first() =~= rest);
    }

    /// What one act does.
    proof fn one_act(self, a: Act<W>)
        ensures
            self.allows_all(seq![a]) <==> self.allows(a),
            self.after_all(seq![a]) == self.after(a),
            sent(seq![a]) == sent_by(a),
    {
        let none = Seq::<Act<W>>::empty();
        self.first_act(a, none);
        assert(seq![a] + none =~= seq![a]);
        assert(sent_by(a) + sent(none) =~= sent_by(a));
    }

    /// What two acts do.
    proof fn two_acts(self, a: Act<W>, b: Act<W>)
        ensures
            self.allows_all(seq![a, b]) <==> self.allows(a) && self.after(a).allows(b),
            self.after_all(seq![a, b]) == self.after(a).after(b),
            sent(seq![a, b]) == sent_by(a) + sent_by(b),
    {
        self.first_act(a, seq![b]);
        self.after(a).one_act(b);
        assert(seq![a] + seq![b] =~= seq![a, b]);
    }

    /// What three acts do.
    proof fn three_acts(self, a: Act<W>, b: Act<W>, c: Act<W>)
        ensures
            self.allows_all(seq![a, b, c]) <==> self.allows(a) && self.after(a).allows(b)
                && self.after(a).after(b).allows(c),
            self.after_all(seq![a, b, c]) == self.after(a).after(b).after(c),
            sent(seq![a, b, c]) == sent_by(a) + (sent_by(b) + sent_by(c)),
    {
        self.first_act(a, seq![b, c]);
        self.after(a).two_acts(b, c);
        assert(seq![a] + seq![b, c] =~= seq![a, b, c]);
    }

    /// The acts that sending a frame comes to.
    pub open spec fn send_acts(self, frame: FrameView, result: Result<(), Error>) -> Seq<Act<W>> {
        if self.refusal(frame) is Some {
            Seq::empty()
        } else if result is Ok {
            seq![Act::Send(frame)]
        } else {
            seq![Act::SendLate(frame)]
        }
    }

    /// Sending a frame hands over that frame and nothing else, where it
    /// succeeds; otherwise nothing.
    pub proof fn sending_is_acts(self, frame: FrameView, result: Result<(), Error>, after: Self)
        requires
            self.sends(frame, result, after),
        ensures
            self.allows_all(self.send_acts(frame, result)),
            after == self.after_all(self.send_acts(frame, result)),
            sent(self.send_acts(frame, result)) == if result is Ok {
                seq![frame]
            } else {
                Seq::empty()
            },
    {
        self.one_act(Act::Send(frame));
        self.one_act(Act::SendLate(frame));
    }

    /// Opening a substream tells the peer of it; where the peer will not hear,
    /// the substream is forgotten again.
    pub proof fn opening_is_acts(self)
        requires
            self.inv(),
            !self.closed,
        ensures
            ({
                let frame = FrameView::open(self.opening().id);
                let acts = seq![Act::Open, Act::Send(frame)];
                &&& self.allows_all(acts)
                &&& self.after_all(acts) == self.begin_open().send(frame)
                &&& sent(acts) == seq![frame]
            }),
            ({
                let frame = FrameView::open(self.opening().id);
                let acts = seq![Act::Open, Act::SendLate(frame), Act::Release(self.opening())];
                &&& self.allows_all(acts)
                &&& self.after_all(acts) == self.begin_open().send_late(frame).release(
                    self.opening(),
                )
                &&& sent(acts) == Seq::<FrameView>::empty()
            }),
    {
        let opening = self.opening();
        let frame = FrameView::open(opening.id);
        self.two_acts(Act::Open, Act::Send(frame));
        assert(sent_by(Act::<W>::Open) + sent_by(Act::<W>::Send(frame)) =~= seq![frame]);
        self.three_acts(Act::Open, Act::SendLate(frame), Act::Release(opening));
        self.opened_by_this_side();
        assert(self.begin_open().send_late(frame).lent(opening));
    }

    /// Shutting a session down closes it, and then tells the task that drives
    /// the transport.
    pub proof fn shutdown_is_acts(self)
        ensures
            self.allows_all(seq![Act::CloseAll, Act::Signal]),
            self.after_all(seq![Act::CloseAll, Act::Signal]) == self.shutdown(),
    {
        self.two_acts(Act::CloseAll, Act::Signal);
    }

    /// Going away hands the `GoAway` over before the session is closed, so that
    /// nothing is sent after it.
    pub proof fn goaway_is_acts(self, reason: u32)
        requires
            !self.closed,
        ensures
            ({
                let frame = FrameView::goaway(reason);
                let acts = seq![Act::Send(frame), Act::CloseAll, Act::Signal];
                &&& self.allows_all(acts)
                &&& self.after_all(acts) == self.send(frame).shutdown()
                &&& self.after_all(acts).queued.last() == frame.wire()
            }),
    {
        let frame = FrameView::goaway(reason);
        self.three_acts(Act::Send(frame), Act::CloseAll, Act::Signal);
    }

    /// Giving up a handle tells the peer, if it was not told before, and then
    /// releases the handle.
    pub proof fn dropping_is_acts(self, s: StreamView, told: Self)
        requires
            self.inv(),
            self.lent(s),
            s.sends_close(self, told),
        ensures
            told.lent(s),
            told.after(Act::Release(s)) == told.release(s),
            s.outgoing_closed || self.closed ==> told == self,
            !s.outgoing_closed && !self.closed ==> told == self.after(
                Act::Send(FrameView::close(s.id)),
            ) || told == self.after(Act::SendLate(FrameView::close(s.id))),
            !s.outgoing_closed && !self.closed ==> self.allows(
                Act::Send(FrameView::close(s.id)),
            ) && self.allows(Act::SendLate(FrameView::close(s.id))),
    {
    }

    /// A step of the task that drives the transport applies the frames that
    /// came in, and closes the session where the task stops.
    pub proof fn step_is_acts(self, drive: DriveView, event: EventView)
        ensures
            ({
                let frames = drive.brings(event);
                let served = receipts(frames);
                &&& self.allows_all(served)
                &&& self.after_all(served) == self.dispatch_all(frames)
                &&& received(served) == frames
                &&& self.after_all(served).after(Act::CloseAll) == self.dispatch_all(
                    frames,
                ).close_all()
            }),
    {
        self.delivery_is_acts(drive.brings(event));
    }
}

/// What can be done with the sending half of a handle.
pub enum Use {
    /// Bytes are written.
    Write(Seq<u8>),
    /// The handle is shut down, or given up.
    Shutdown,
}

impl StreamView {
    /// The frame that a use of a handle asks the session to send, if it asks
    /// for one. A write after the peer's `Close` is refused, and is no use of
    /// the handle in this sense.
    pub open spec fn asks(self, action: Use) -> Option<FrameView> {
        if self.outgoing_closed {
            None
        } else {
            match action {
                Use::Write(bytes) => if bytes.len() <= MAX_FRAME_PAYLOAD {
                    Some(FrameView::data(self.id, bytes))
                } else {
                    None
                },
                Use::Shutdown => Some(FrameView::close(self.id)),
            }
        }
    }

    /// The handle after a use.
    pub open spec fn after_use(self, action: Use) -> Self {
        StreamView { outgoing_closed: self.outgoing_closed || action is Shutdown, ..self }
    }

    /// The frames that uses of a handle ask for, in order.
    pub open spec fn asks_all(self, uses: Seq<Use>) -> Seq<FrameView>
        decreases uses.len(),
    {
        if uses.len() == 0 {
            Seq::empty()
        } else {
            (match self.asks(uses.first()) {
                Some(frame) => seq![frame],
                None => Seq::empty(),
            }) + self.after_use(uses.first()).asks_all(uses.drop_first())
        }
    }

    /// The bytes that uses of a handle write, in order. What is too long for a
    /// frame, or comes after the handle was shut down, is refused.
    pub open spec fn writes_all(self, uses: Seq<Use>) -> Seq<u8>
        decreases uses.len(),
    {
        if uses.len() == 0 {
            Seq::empty()
        } else {
            (match uses.first() {
                Use::Write(bytes) => if !self.outgoing_closed && bytes.len() <= MAX_FRAME_PAYLOAD {
                    bytes
                } else {
                    Seq::empty()
                },
                Use::Shutdown => Seq::empty(),
            }) + self.after_use(uses.first()).writes_all(uses.drop_first())
        }
    }

    /// The frames that a handle asks for carry what it was used to write.
    pub proof fn handle_carries_what_was_written(self, uses: Seq<Use>)
        ensures
            payload_on(self.asks_all(uses), self.id) == self.writes_all(uses),
        decreases uses.len(),
    {
        if uses.len() > 0 {
            let action = uses.first();
            let rest = uses.drop_first();
            let next = self.after_use(action);
            let later = next.asks_all(rest);
            next.handle_carries_what_was_written(rest);
            match self.asks(action) {
                Some(frame) => {
                    let all = seq![frame] + later;
                    assert(all.first() == frame);
                    assert(all.drop_first() =~= later);
                },
                None => {
                    assert(Seq::<FrameView>::empty() + later =~= later);
                    assert(Seq::<u8>::empty() + next.writes_all(rest) =~= next.writes_all(rest));
                },
            }
        }
    }

    /// A handle that was shut down asks for nothing more.
    pub proof fn closed_handle_is_silent(self, uses: Seq<Use>)
        requires
            self.outgoing_closed,
        ensures
            self.asks_all(uses) == Seq::<FrameView>::empty(),
        decreases uses.len(),
    {
        if uses.len() > 0 {
            self.after_use(uses.first()).closed_handle_is_silent(uses.drop_first());
            assert(self.asks_all(uses) =~= Seq::<FrameView>::empty());
        }
    }

    /// However a handle is used, the `Close` is sent at most once, and nothing
    /// after it: what a handle sends is orderly, and on its own substream.
    pub proof fn handles_are_orderly(self, uses: Seq<Use>)
        ensures
            orderly(self.asks_all(uses), self.id),
            forall|i: int|
                0 <= i < self.asks_all(uses).len() ==> (#[trigger] self.asks_all(uses)[i]).stream_id
                    == self.id,
            forall|i: int|
                0 <= i < self.asks_all(uses).len() - 1 ==> !is_close(
                    #[trigger] self.asks_all(uses)[i],
                    self.id,
                ),
        decreases uses.len(),
    {
        if uses.len() > 0 {
            let action = uses.first();
            let rest = uses.drop_first();
            let next = self.after_use(action);
            let now = self.asks_all(uses);
            let later = next.asks_all(rest);
            next.handles_are_orderly(rest);
            match self.asks(action) {
                Some(frame) => {
                    assert(now =~= seq![frame] + later);
                    if action is Shutdown {
                        next.closed_handle_is_silent(rest);
                    }
                    assert forall|i: int| 0 <= i < now.len() implies (#[trigger] now[i]).stream_id
                        == self.id by {
                        if i > 0 {
                            assert(now[i] == later[i - 1]);
                        }
                    }
                    assert forall|i: int| 0 <= i < now.len() - 1 implies !is_close(
                        #[trigger] now[i],
                        self.id,
                    ) by {
                        if i > 0 {
                            assert(now[i] == later[i - 1]);
                        }
                    }
                },
                None => {
                    assert(now =~= later);
                },
            }
            assert forall|i: int, j: int|
                0 <= i < j < now.len() && is_close(#[trigger] now[i], self.id) implies !is_data(
                #[trigger] now[j],
                self.id,
            ) by {}
        }
    }
}

/// A frame that carries bytes on a substream, or closes it.
pub open spec fn is_traffic(frame: FrameView, id: StreamId) -> bool {
    is_data(frame, id) || is_close(frame, id)
}

/// The frames that carry bytes on a substream, or close it, in order.
pub open spec fn traffic(frames: Seq<FrameView>, id: StreamId) -> Seq<FrameView>
    decreases frames.len(),
{
    if frames.len() == 0 {
        Seq::empty()
    } else {
        let earlier = traffic(frames.drop_last(), id);
        if is_traffic(frames.last(), id) {
            earlier.push(frames.last())
        } else {
            earlier
        }
    }
}

/// Frames carry on a substream what its traffic carries.
pub proof fn traffic_carries_all(frames: Seq<FrameView>, id: StreamId)
    ensures
        payload_on(traffic(frames, id), id) == payload_on(frames, id),
    decreases frames.len(),
{
    if frames.len() > 0 {
        let init = frames.drop_last();
        let last = seq![frames.last()];
        traffic_carries_all(init, id);
        assert(frames =~= init + last);
        payload_in_parts(init, last, id);
        if is_traffic(frames.last(), id) {
            assert(traffic(frames, id) =~= traffic(init, id) + last);
            payload_in_parts(traffic(init, id), last, id);
        } else {
            assert(last.first() == frames.last());
            assert(last.drop_first() =~= Seq::<FrameView>::empty());
            assert(payload_on(last, id) =~= Seq::<u8>::empty()) by {
                reveal_with_fuel(payload_on, 2);
            }
            assert(payload_on(init, id) + Seq::<u8>::empty() =~= payload_on(init, id));
        }
    }
}

/// Traffic is found among the traffic.
proof fn traffic_has(frames: Seq<FrameView>, id: StreamId, i: int)
    requires
        0 <= i < frames.len(),
        is_traffic(frames[i], id),
    ensures
        traffic(frames, id).contains(frames[i]),
    decreases frames.len(),
{
    let earlier = traffic(frames.drop_last(), id);
    if i == frames.len() - 1 {
        assert(traffic(frames, id)[earlier.len() as int] == frames[i]);
    } else {
        traffic_has(frames.drop_last(), id, i);
        let k = earlier.index_of(frames[i]);
        assert(traffic(frames, id)[k] == frames[i]);
    }
}

/// Frames are orderly on a substream where its traffic is.
proof fn orderly_by_traffic(frames: Seq<FrameView>, id: StreamId)
    requires
        orderly(traffic(frames, id), id),
    ensures
        orderly(frames, id),
    decreases frames.len(),
{
    if frames.len() > 0 {
        let init = frames.drop_last();
        let earlier = traffic(init, id);
        let all = traffic(frames, id);
        assert forall|i: int, j: int|
            0 <= i < j < earlier.len() && is_close(#[trigger] earlier[i], id) implies !is_data(
            #[trigger] earlier[j],
            id,
        ) by {
            assert(earlier[i] == all[i] && earlier[j] == all[j]);
        }
        orderly_by_traffic(init, id);
        assert forall|i: int, j: int|
            0 <= i < j < frames.len() && is_close(#[trigger] frames[i], id) implies !is_data(
            #[trigger] frames[j],
            id,
        ) by {
            assert(frames[i] == init[i]);
            if j < init.len() {
                assert(frames[j] == init[j]);
            } else if is_data(frames[j], id) {
                traffic_has(init, id, i);
                let k = earlier.index_of(init[i]);
                assert(all[k] == frames[i]);
                assert(all[earlier.len() as int] == frames[j]);
            }
        }
    }
}

/// Where everything that a session sends on a substream is what one handle was
/// used for, what it sends is orderly on that substream, from any point on.
pub proof fn one_handle_sends_orderly<W>(
    acts: Seq<Act<W>>,
    s: StreamView,
    uses: Seq<Use>,
    from: int,
)
    requires
        traffic(sent(acts), s.id) == s.asks_all(uses),
        0 <= from <= sent(acts).len(),
    ensures
        orderly(sent(acts), s.id),
        orderly(sent(acts).skip(from), s.id),
{
    let frames = sent(acts);
    let rest = frames.skip(from);
    s.handles_are_orderly(uses);
    orderly_by_traffic(frames, s.id);
    assert forall|i: int, j: int|
        0 <= i < j < rest.len() && is_close(#[trigger] rest[i], s.id) implies !is_data(
        #[trigger] rest[j],
        s.id,
    ) by {
        assert(rest[i] == frames[i + from] && rest[j] == frames[j + from]);
    }
}

} // verus!
