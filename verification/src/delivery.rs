//! What one side of a connection reads of what the other side sent.
use vstd::prelude::*;

use crate::codec::{all_fit, parsed, prefix_parses_to_prefix, wire_all};
use crate::frame::{Flag, FrameView, StreamId};
use crate::mplex::MultiplexerView;
use crate::session::{
    closed_front_carries_all, has_close, orderly, payload_in_parts, payload_on, received, received_in_parts, Act,
};

verus! {

/// The frame that one act hands to the task that drives the transport, if it
/// hands over one.
pub open spec fn sent_by<W>(act: Act<W>) -> Seq<FrameView> {
    match act {
        Act::Send(frame) => seq![frame],
        _ => Seq::empty(),
    }
}

/// The frames that acts hand to the task that drives the transport, in order.
pub open spec fn sent<W>(acts: Seq<Act<W>>) -> Seq<FrameView>
    decreases acts.len(),
{
    if acts.len() == 0 {
        Seq::empty()
    } else {
        sent_by(acts.first()) + sent(acts.drop_first())
    }
}

impl<W> MultiplexerView<W> {
    /// The task that drives the transport is given the encodings of the frames
    /// that were sent, in order and nothing else, and all of them can be
    /// encoded.
    pub proof fn queue_is_what_was_sent(self, acts: Seq<Act<W>>)
        requires
            self.allows_all(acts),
        ensures
            all_fit(sent(acts)),
            self.after_all(acts).queued.flatten() == self.queued.flatten() + wire_all(sent(acts)),
        decreases acts.len(),
    {
        if acts.len() == 0 {
            assert(self.queued.flatten() + wire_all(sent(acts)) =~= self.queued.flatten());
        } else {
            let act = acts.first();
            let rest = acts.drop_first();
            let next = self.after(act);
            next.queue_is_what_was_sent(rest);
            match act {
                Act::Send(frame) => {
                    let all = sent(acts);
                    assert(all.first() == frame);
                    assert(all.drop_first() =~= sent(rest));
                    assert forall|i: int| 0 <= i < all.len() implies (#[trigger] all[i]).fits() by {
                        if i > 0 {
                            assert(all[i] == sent(rest)[i - 1]);
                        }
                    }
                    self.queued.lemma_flatten_push(frame.wire());
                    assert((self.queued.flatten() + frame.wire()) + wire_all(sent(rest))
                        =~= self.queued.flatten() + wire_all(all));
                },
                _ => {
                    assert(sent(acts) =~= sent(rest));
                },
            }
        }
    }

    /// Acts that follow one another do what the first ones do, and then what
    /// the others do.
    pub proof fn acts_in_parts(self, first: Seq<Act<W>>, second: Seq<Act<W>>)
        ensures
            self.after_all(first + second) == self.after_all(first).after_all(second),
            self.allows_all(first + second) <==> self.allows_all(first) && self.after_all(
                first,
            ).allows_all(second),
        decreases first.len(),
    {
        if first.len() == 0 {
            assert(first + second =~= second);
        } else {
            assert((first + second).first() == first.first());
            assert((first + second).drop_first() =~= first.drop_first() + second);
            self.after(first.first()).acts_in_parts(first.drop_first(), second);
        }
    }

    /// A substream that the peer opens has a handle of its own, on which
    /// nothing has arrived yet and which frames reach.
    pub proof fn opened_by_peer(self, frame: FrameView)
        requires
            self.inv(),
            !self.closed,
            frame.flag == Flag::Open,
        ensures
            !self.incoming.contains_key(self.next_handle),
            self.dispatch(frame).attached(self.next_handle),
            self.dispatch(frame).incoming[self.next_handle].id == frame.stream_id,
            self.dispatch(frame).incoming[self.next_handle].unread() == Seq::<u8>::empty(),
            self.dispatch(frame).new_streams.last().handle == self.next_handle,
            self.dispatch(frame).new_streams.last().id == frame.stream_id,
    {
    }

    /// So has a substream that this side opens.
    pub proof fn opened_by_this_side(self)
        requires
            self.inv(),
        ensures
            !self.incoming.contains_key(self.next_handle),
            self.opening().handle == self.next_handle,
            self.begin_open().attached(self.next_handle),
            self.begin_open().incoming[self.next_handle].id == self.opening().id,
            self.begin_open().incoming[self.next_handle].unread() == Seq::<u8>::empty(),
            self.begin_open().lent(self.opening()),
    {
    }
}

impl<W> MultiplexerView<W> {
    /// An act that concerns neither a handle nor its substream.
    pub open spec fn concerns_others(self, act: Act<W>, h: nat) -> bool {
        let id = self.incoming[h].id;
        match act {
            Act::Receive(frame) => frame.flag != Flag::GoAway && frame.stream_id != id,
            Act::Read { handle, .. } => handle != h,
            Act::Open => self.closed || self.next_id != id.0,
            Act::Release(s) => s.handle != h,
            Act::Close(closing) => closing != id,
            Act::CloseAll => false,
            _ => true,
        }
    }

    /// Substreams are independent: what concerns others leaves a substream
    /// exactly as it was.
    pub proof fn substreams_are_independent(self, act: Act<W>, h: nat)
        requires
            self.inv(),
            self.allows(act),
            self.incoming.contains_key(h),
            self.concerns_others(act, h),
        ensures
            self.after(act).incoming.contains_key(h),
            self.after(act).incoming[h] == self.incoming[h],
            self.after(act).attached(h) == self.attached(h),
    {
    }

    /// A write adds its bytes to what its substream carries, and nothing to
    /// what any other one does.
    pub proof fn write_adds_its_bytes(
        self,
        acts: Seq<Act<W>>,
        id: StreamId,
        bytes: Seq<u8>,
        other: StreamId,
    )
        ensures
            ({
                let now = acts.push(Act::Send(FrameView::data(id, bytes)));
                payload_on(sent(now), other) == payload_on(sent(acts), other) + if other == id {
                    bytes
                } else {
                    Seq::empty()
                }
            }),
    {
        let frame = FrameView::data(id, bytes);
        let write = seq![Act::<W>::Send(frame)];
        let one = seq![frame];
        assert(acts.push(Act::Send(frame)) =~= acts + write);
        sent_in_parts(acts, write);
        assert(write.drop_first() =~= Seq::<Act<W>>::empty());
        assert(sent(write) =~= one) by {
            reveal_with_fuel(sent, 2);
        }
        payload_in_parts(sent(acts), one, other);
        assert(one.drop_first() =~= Seq::<FrameView>::empty());
        assert(payload_on(one, other) =~= if other == id {
            bytes
        } else {
            Seq::empty()
        }) by {
            reveal_with_fuel(payload_on, 2);
        }
    }
}

/// What is sent in two stretches.
pub proof fn sent_in_parts<W>(first: Seq<Act<W>>, second: Seq<Act<W>>)
    ensures
        sent(first + second) == sent(first) + sent(second),
    decreases first.len(),
{
    if first.len() == 0 {
        assert(first + second =~= second);
        assert(sent(first) + sent(second) =~= sent(second));
    } else {
        assert((first + second).drop_first() =~= first.drop_first() + second);
        sent_in_parts(first.drop_first(), second);
        assert((first + second).first() == first.first());
        assert(sent(first + second) =~= sent(first) + sent(second));
    }
}

/// Frames that were sent from some point on carry what the first of them carry
/// and then what the others do.
proof fn payload_of_prefix(some: Seq<FrameView>, all: Seq<FrameView>, from: int, id: StreamId)
    requires
        some.is_prefix_of(all),
        0 <= from <= some.len(),
    ensures
        payload_on(some.skip(from), id).is_prefix_of(payload_on(all.skip(from), id)),
{
    let early = some.skip(from);
    let late = all.skip(some.len() as int);
    assert(all.skip(from) =~= early + late);
    payload_in_parts(early, late, id);
    assert(payload_on(early, id) =~= (payload_on(early, id) + payload_on(late, id)).take(
        payload_on(early, id).len() as int,
    ));
}

/// Frames that begin as others do, cut in two: the first part begins as the
/// others do, and the second as what is behind it does.
proof fn front_in_parts(first: Seq<FrameView>, second: Seq<FrameView>, all: Seq<FrameView>)
    requires
        (first + second).is_prefix_of(all),
    ensures
        first.is_prefix_of(all),
        second.is_prefix_of(all.skip(first.len() as int)),
        first + second == all ==> second == all.skip(first.len() as int),
{
    let both = first + second;
    let rest = all.skip(first.len() as int);
    assert(both == all.take(both.len() as int));
    assert forall|i: int| 0 <= i < first.len() implies first[i] == all[i] by {
        assert(first[i] == both[i]);
    }
    assert forall|i: int| 0 <= i < second.len() implies second[i] == rest[i] by {
        assert(second[i] == both[i + first.len()]);
    }
    assert(first =~= all.take(first.len() as int));
    assert(second =~= rest.take(second.len() as int));
    if both == all {
        assert(second =~= rest);
    }
}

/// Bytes taken off the front of what was there and what was brought, which is
/// itself the front of what was meant to be, are the front of all that.
proof fn front_of_what_is_meant(
    read: Seq<u8>,
    left: Seq<u8>,
    unread: Seq<u8>,
    brought: Seq<u8>,
    carried: Seq<u8>,
    meant: Seq<u8>,
)
    requires
        read + left == unread + brought,
        brought.is_prefix_of(carried),
        carried.is_prefix_of(meant),
    ensures
        read.is_prefix_of(unread + meant),
{
    assert(read.len() + left.len() == (unread + brought).len());
    assert forall|i: int| 0 <= i < read.len() implies read[i] == (unread + meant)[i] by {
        assert(read[i] == (read + left)[i]);
        if i >= unread.len() {
            let j = i - unread.len();
            assert(brought[j] == carried[j]);
            assert(carried[j] == meant[j]);
        }
    }
    assert(read =~= (unread + meant).take(read.len() as int));
}

impl<W> MultiplexerView<W> {
    /// However a connection is torn down, a reader has got a correct prefix of
    /// what was sent on its substream, and nothing of another one's.
    ///
    /// The peer sent the frames `all`, of which `n` bytes arrived; `earlier`
    /// happened up to some point and `later` after it. What is read of `h`
    /// later is a prefix of what was then unread, followed by what the frames
    /// carry that had not been received then.
    pub proof fn prefix_of_what_was_sent(
        self,
        earlier: Seq<Act<W>>,
        later: Seq<Act<W>>,
        h: nat,
        all: Seq<FrameView>,
        n: int,
    )
        requires
            self.inv(),
            self.allows_all(earlier + later),
            all_fit(all),
            0 <= n <= wire_all(all).len(),
            received(earlier + later) == parsed(wire_all(all).take(n)).frames,
            self.after_all(earlier).incoming.contains_key(h),
            forall|i: int| 0 <= i < later.len() ==> Self::spares(#[trigger] later[i], h),
        ensures
            received(earlier).is_prefix_of(all),
            ({
                let then = self.after_all(earlier);
                let rest = all.skip(received(earlier).len() as int);
                then.read_by_all(later, h).is_prefix_of(
                    then.incoming[h].unread() + payload_on(rest, then.incoming[h].id),
                )
            }),
    {
        let then = self.after_all(earlier);
        let id = then.incoming[h].id;
        let from = received(earlier).len() as int;
        let some = received(earlier + later);
        self.acts_in_parts(earlier, later);
        self.acts_keep_inv(earlier);
        received_in_parts(earlier, later);
        prefix_parses_to_prefix(all, n);
        assert(received(earlier) =~= all.take(from));
        assert(some.skip(from) =~= received(later));
        payload_of_prefix(some, all, from, id);
        then.arrivals_are_a_prefix(later, h);
        then.nothing_is_lost(later, h);
        front_of_what_is_meant(
            then.read_by_all(later, h),
            then.after_all(later).incoming[h].unread(),
            then.incoming[h].unread(),
            then.brought_by_all(later, h),
            payload_on(received(later), id),
            payload_on(all.skip(from), id),
        );
    }

    /// A substream that is closed cleanly delivers exactly what was sent on
    /// it, and then the end, whatever else is still on its way.
    ///
    /// The peer sent the frames `all`, of which `n` bytes arrived; `earlier`
    /// happened up to some point and `later` after it. The end of `h` is seen
    /// if and only if the `Close` was received later. Then what is read of `h`
    /// later, followed by what is still unread, is what was unread at that
    /// point, followed by everything that the frames carry that had not been
    /// received then. So it is without a `Close` where all the frames arrived.
    pub proof fn exactly_what_was_sent(
        self,
        earlier: Seq<Act<W>>,
        later: Seq<Act<W>>,
        h: nat,
        all: Seq<FrameView>,
        n: int,
    )
        requires
            self.inv(),
            self.allows_all(earlier + later),
            all_fit(all),
            0 <= n <= wire_all(all).len(),
            received(earlier + later) == parsed(wire_all(all).take(n)).frames,
            self.after_all(earlier).attached(h),
            forall|i: int| 0 <= i < later.len() ==> Self::spares(#[trigger] later[i], h),
            self.after_all(earlier).undisturbed(later, self.after_all(earlier).incoming[h].id),
            orderly(
                all.skip(received(earlier).len() as int),
                self.after_all(earlier).incoming[h].id,
            ),
        ensures
            received(earlier).is_prefix_of(all),
            ({
                let then = self.after_all(earlier);
                let now = then.after_all(later);
                let rest = all.skip(received(earlier).len() as int);
                let id = then.incoming[h].id;
                &&& now.incoming.contains_key(h)
                &&& now.incoming[h].closed <==> has_close(received(later), id)
                &&& has_close(received(later), id) ==> has_close(rest, id)
                &&& has_close(received(later), id) || received(earlier + later) == all
                    ==> then.read_by_all(later, h) + now.incoming[h].unread()
                    == then.incoming[h].unread() + payload_on(rest, id)
            }),
    {
        let then = self.after_all(earlier);
        let id = then.incoming[h].id;
        let from = received(earlier).len() as int;
        let rest = all.skip(from);
        self.acts_in_parts(earlier, later);
        self.acts_keep_inv(earlier);
        received_in_parts(earlier, later);
        prefix_parses_to_prefix(all, n);
        front_in_parts(received(earlier), received(later), all);
        closed_front_carries_all(received(later), rest, id);
        then.calm_delivery(later, h);
        then.nothing_is_lost(later, h);
    }
}

} // verus!
