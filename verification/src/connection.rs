//! What holds of the two sides of a connection together.
use vstd::prelude::*;

use crate::codec::{all_fit, parsed, prefix_parses_to_prefix, wire_all};
use crate::delivery::sent;
use crate::drive::DriveView;
use crate::frame::FrameView;
use crate::incoming::Poll;
use crate::mplex::MultiplexerView;
use crate::operations::{one_handle_sends_orderly, traffic, traffic_carries_all, Use};
use crate::run::{arrived, given, Turn};
use crate::session::{
    has_close, orderly, payload_in_parts, payload_on, received, received_in_parts, Act,
};
use crate::stream::StreamView;

verus! {

/// One side of a connection: a session, what happens in it, and what the task
/// that drives its transport does meanwhile.
pub struct Endpoint<W> {
    /// The session as it began.
    pub session: MultiplexerView<W>,
    /// What happens in it.
    pub acts: Seq<Act<W>>,
    /// The task as it began.
    pub drive: DriveView,
    /// What it does.
    pub turns: Seq<Turn>,
}

impl<W> Endpoint<W> {
    /// The session and the task begin with nothing done, and proceed as they
    /// can. The task is given frames in the order in which the session queued
    /// them, and the session receives the frames that the task brings in.
    pub open spec fn consistent(self) -> bool {
        &&& self.session.inv()
        &&& self.session.queued == Seq::<Seq<u8>>::empty()
        &&& self.session.allows_all(self.acts)
        &&& self.drive.input == Seq::<u8>::empty()
        &&& self.drive.output == Seq::<u8>::empty()
        &&& self.drive.can_run(self.turns)
        &&& given(self.turns).is_prefix_of(self.session.after_all(self.acts).queued.flatten())
        &&& received(self.acts) == self.drive.brought(self.turns)
    }

    /// The frames that this side sent.
    pub open spec fn frames(self) -> Seq<FrameView> {
        sent(self.acts)
    }

    /// The bytes that this side wrote to the transport.
    pub open spec fn wrote(self) -> Seq<u8> {
        self.drive.written(self.turns)
    }

    /// The bytes that arrived at this side.
    pub open spec fn got(self) -> Seq<u8> {
        arrived(self.turns)
    }

    /// What this side wrote is the front of the encodings of what it sent.
    pub proof fn writes_what_it_sent(self)
        requires
            self.consistent(),
        ensures
            all_fit(self.frames()),
            self.wrote().is_prefix_of(wire_all(self.frames())),
    {
        let all = wire_all(self.frames());
        self.session.queue_is_what_was_sent(self.acts);
        assert(Seq::<Seq<u8>>::empty().flatten() + all =~= all);
        self.drive.output_in_order(self.turns);
        let wrote = self.wrote();
        let left = self.drive.run(self.turns).output;
        assert(Seq::<u8>::empty() + given(self.turns) =~= given(self.turns));
        assert(wrote =~= (wrote + left).take(wrote.len() as int));
        assert(given(self.turns) == all.take(given(self.turns).len() as int));
        assert((wrote + left).len() == wrote.len() + left.len());
        assert(wrote =~= all.take(wrote.len() as int));
    }

    /// What this side received is what the bytes hold that arrived.
    pub proof fn receives_what_it_got(self)
        requires
            self.consistent(),
        ensures
            received(self.acts) == parsed(self.got()).frames,
    {
        assert(self.drive.settled());
        self.drive.input_in_order(self.turns);
        assert(Seq::<u8>::empty() + self.got() =~= self.got());
    }

    /// Where the bytes that arrived are the first ones that the other side
    /// wrote, they are the front of the encodings of what it sent, and what was
    /// received is the front of what it sent.
    pub proof fn gets_the_front<V>(self, peer: Endpoint<V>)
        requires
            self.consistent(),
            peer.consistent(),
            self.got().is_prefix_of(peer.wrote()),
        ensures
            all_fit(peer.frames()),
            self.got().is_prefix_of(wire_all(peer.frames())),
            received(self.acts) == parsed(self.got()).frames,
            received(self.acts).is_prefix_of(peer.frames()),
    {
        let n = self.got().len() as int;
        let all = wire_all(peer.frames());
        peer.writes_what_it_sent();
        self.receives_what_it_got();
        assert(self.got() == peer.wrote().take(n));
        assert(peer.wrote() == all.take(peer.wrote().len() as int));
        assert(self.got() =~= all.take(n));
        prefix_parses_to_prefix(peer.frames(), n);
    }

    /// However a connection is torn down, a reader has got a correct prefix of
    /// what the other side sent on the substream. No byte is corrupted, out of
    /// order, or another substream's.
    ///
    /// `earlier` is what had happened when the reader set out, and `later`
    /// what happened since.
    pub proof fn torn_down_delivers_a_prefix<V>(
        self,
        peer: Endpoint<V>,
        earlier: Seq<Act<W>>,
        later: Seq<Act<W>>,
        h: nat,
    )
        requires
            self.consistent(),
            peer.consistent(),
            self.got().is_prefix_of(peer.wrote()),
            self.acts == earlier + later,
            self.session.after_all(earlier).incoming.contains_key(h),
            forall|i: int|
                0 <= i < later.len() ==> MultiplexerView::<W>::spares(#[trigger] later[i], h),
        ensures
            ({
                let then = self.session.after_all(earlier);
                let rest = peer.frames().skip(received(earlier).len() as int);
                then.read_by_all(later, h).is_prefix_of(
                    then.incoming[h].unread() + payload_on(rest, then.incoming[h].id),
                )
            }),
    {
        let n = self.got().len() as int;
        self.gets_the_front(peer);
        self.session.prefix_of_what_was_sent(earlier, later, h, peer.frames(), n);
    }

    /// A substream that is closed cleanly delivers exactly what the other side
    /// sent on it, and then the end, whatever else is still on its way or is
    /// lost when the connection is torn down.
    ///
    /// `earlier` is what had happened when the reader set out, and `later`
    /// what happened since. The end is seen if and only if the `Close` was
    /// received.
    pub proof fn clean_close_delivers_everything<V>(
        self,
        peer: Endpoint<V>,
        earlier: Seq<Act<W>>,
        later: Seq<Act<W>>,
        h: nat,
    )
        requires
            self.consistent(),
            peer.consistent(),
            self.got().is_prefix_of(peer.wrote()),
            self.acts == earlier + later,
            self.session.after_all(earlier).attached(h),
            forall|i: int|
                0 <= i < later.len() ==> MultiplexerView::<W>::spares(#[trigger] later[i], h),
            self.session.after_all(earlier).undisturbed(
                later,
                self.session.after_all(earlier).incoming[h].id,
            ),
            orderly(
                peer.frames().skip(received(earlier).len() as int),
                self.session.after_all(earlier).incoming[h].id,
            ),
        ensures
            ({
                let then = self.session.after_all(earlier);
                let now = then.after_all(later);
                let rest = peer.frames().skip(received(earlier).len() as int);
                let id = then.incoming[h].id;
                &&& now.incoming.contains_key(h)
                &&& now.incoming[h].closed <==> has_close(received(later), id)
                &&& has_close(received(later), id) ==> has_close(rest, id)
                &&& has_close(received(later), id) || received(self.acts) == peer.frames()
                    ==> then.read_by_all(later, h) + now.incoming[h].unread()
                    == then.incoming[h].unread() + payload_on(rest, id)
            }),
    {
        self.gets_the_front(peer);
        self.session.exactly_what_was_sent(
            earlier,
            later,
            h,
            peer.frames(),
            self.got().len() as int,
        );
    }

    /// A reader that sees the end of a substream that was closed cleanly has
    /// read everything that the other side sent on it, whatever else is still
    /// on its way or is lost.
    pub proof fn end_comes_after_everything<V>(
        self,
        peer: Endpoint<V>,
        earlier: Seq<Act<W>>,
        later: Seq<Act<W>>,
        h: nat,
        limit: nat,
    )
        requires
            self.consistent(),
            peer.consistent(),
            self.got().is_prefix_of(peer.wrote()),
            self.acts == earlier + later,
            self.session.after_all(earlier).attached(h),
            forall|i: int|
                0 <= i < later.len() ==> MultiplexerView::<W>::spares(#[trigger] later[i], h),
            self.session.after_all(earlier).undisturbed(
                later,
                self.session.after_all(earlier).incoming[h].id,
            ),
            orderly(
                peer.frames().skip(received(earlier).len() as int),
                self.session.after_all(earlier).incoming[h].id,
            ),
            limit > 0,
            self.session.after_all(self.acts).incoming[h].read_result(limit) == Poll::Ready(
                Seq::<u8>::empty(),
            ),
        ensures
            ({
                let then = self.session.after_all(earlier);
                let rest = peer.frames().skip(received(earlier).len() as int);
                let id = then.incoming[h].id;
                &&& then.read_by_all(later, h) == then.incoming[h].unread() + payload_on(rest, id)
                &&& has_close(rest, id)
            }),
    {
        let then = self.session.after_all(earlier);
        let now = then.after_all(later);
        self.session.acts_in_parts(earlier, later);
        self.session.acts_keep_inv(earlier);
        self.clean_close_delivers_everything(peer, earlier, later, h);
        then.acts_keep_inv(later);
        now.incoming[h].empty_read_is_end(limit);
        assert(then.read_by_all(later, h) + Seq::<u8>::empty() =~= then.read_by_all(later, h));
    }

    /// The same, where everything that the other side sends on the substream
    /// comes from one handle, `s`: the bytes that its frames carry are those
    /// that the handle was used to write.
    pub proof fn one_handle_delivers_everything<V>(
        self,
        peer: Endpoint<V>,
        earlier: Seq<Act<W>>,
        later: Seq<Act<W>>,
        h: nat,
        s: StreamView,
        uses: Seq<Use>,
    )
        requires
            self.consistent(),
            peer.consistent(),
            self.got().is_prefix_of(peer.wrote()),
            self.acts == earlier + later,
            self.session.after_all(earlier).attached(h),
            forall|i: int|
                0 <= i < later.len() ==> MultiplexerView::<W>::spares(#[trigger] later[i], h),
            self.session.after_all(earlier).undisturbed(later, s.id),
            self.session.after_all(earlier).incoming[h].id == s.id,
            traffic(peer.frames(), s.id) == s.asks_all(uses),
        ensures
            ({
                let then = self.session.after_all(earlier);
                let now = then.after_all(later);
                let rest = peer.frames().skip(received(earlier).len() as int);
                &&& now.incoming.contains_key(h)
                &&& now.incoming[h].closed <==> has_close(received(later), s.id)
                &&& has_close(received(later), s.id) ==> has_close(rest, s.id)
                &&& has_close(received(later), s.id) || received(self.acts) == peer.frames()
                    ==> then.read_by_all(later, h) + now.incoming[h].unread()
                    == then.incoming[h].unread() + payload_on(rest, s.id)
                &&& payload_on(received(earlier), s.id) + payload_on(rest, s.id) == s.writes_all(
                    uses,
                )
            }),
    {
        let all = peer.frames();
        let from = received(earlier).len() as int;
        self.gets_the_front(peer);
        received_in_parts(earlier, later);
        one_handle_sends_orderly(peer.acts, s, uses, from);
        self.clean_close_delivers_everything(peer, earlier, later, h);
        assert(received(earlier) =~= all.take(from));
        assert(all =~= received(earlier) + all.skip(from));
        payload_in_parts(received(earlier), all.skip(from), s.id);
        traffic_carries_all(all, s.id);
        s.handle_carries_what_was_written(uses);
    }
}

} // verus!
