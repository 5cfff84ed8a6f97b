//! Who waits for a session, and for what.
use vstd::prelude::*;

use crate::frame::{Flag, StreamId};
use crate::incoming::IncomingView;
use crate::mplex::MultiplexerView;
use crate::session::Act;
use crate::stream::StreamView;

verus! {

impl<W> MultiplexerView<W> {
    /// Whoever waits has to: a reader waits only where nothing is unread and
    /// the end has not come, and an accepter only while no substream is queued
    /// and one may still come. Nobody waits in a session that was shut down.
    ///
    /// A reader whose substream the peer has opened anew gets nothing more; it
    /// waits for the end, which comes when the session is shut down.
    pub open spec fn waits_have_reasons(self) -> bool {
        &&& forall|h: nat| #[trigger]
            self.incoming.contains_key(h) && self.incoming[h].read_waker is Some
                ==> self.incoming[h].chunks.len() == 0 && !self.incoming[h].closed
        &&& self.closed ==> forall|h: nat| #[trigger]
            self.incoming.contains_key(h) ==> self.incoming[h].read_waker is None
        &&& self.accept_waker is Some ==> self.new_streams.len() == 0 && !self.closed
    }

    /// No wake-up is lost: whatever happens, no reader is left waiting once
    /// there is something to read or the end has come, no accepter once there
    /// is a substream to accept, and nobody at all once the session has been
    /// shut down.
    pub proof fn nobody_waits_in_vain(self, acts: Seq<Act<W>>)
        requires
            self.inv(),
            self.allows_all(acts),
            self.waits_have_reasons(),
        ensures
            self.after_all(acts).waits_have_reasons(),
        decreases acts.len(),
    {
        if acts.len() > 0 {
            let act = acts.first();
            self.act_keeps_inv(act);
            assert(self.after(act).waits_have_reasons());
            self.after(act).nobody_waits_in_vain(acts.drop_first());
        }
    }

    /// Nobody waits when a session begins.
    pub proof fn nobody_waits_at_first(self)
        requires
            self.incoming == Map::<nat, IncomingView<W>>::empty(),
            self.accept_waker is None,
        ensures
            self.waits_have_reasons(),
    {
    }

    /// The substreams that acts hand out, in order.
    pub open spec fn handed_out(self, acts: Seq<Act<W>>) -> Seq<StreamView>
        decreases acts.len(),
    {
        if acts.len() == 0 {
            Seq::empty()
        } else {
            (match acts.first() {
                Act::Accept => self.new_streams.take(
                    if self.new_streams.len() > 0 {
                        1
                    } else {
                        0
                    },
                ),
                _ => Seq::empty(),
            }) + self.after(acts.first()).handed_out(acts.drop_first())
        }
    }

    /// The substreams that the peer opens by acts, in order.
    pub open spec fn opened_by_acts(self, acts: Seq<Act<W>>) -> Seq<StreamId>
        decreases acts.len(),
    {
        if acts.len() == 0 {
            Seq::empty()
        } else {
            (match acts.first() {
                Act::Receive(frame) => if frame.flag == Flag::Open && !self.closed {
                    seq![frame.stream_id]
                } else {
                    Seq::empty()
                },
                _ => Seq::empty(),
            }) + self.after(acts.first()).opened_by_acts(acts.drop_first())
        }
    }

    /// Substreams are handed out in the order in which the peer opened them,
    /// each of them once: those handed out, followed by those that still wait,
    /// are those that waited at first, followed by those opened since.
    pub proof fn accepted_in_order(self, acts: Seq<Act<W>>)
        ensures
            ids(self.handed_out(acts) + self.after_all(acts).new_streams) == ids(self.new_streams)
                + self.opened_by_acts(acts),
        decreases acts.len(),
    {
        if acts.len() == 0 {
            assert(ids(Seq::<StreamView>::empty() + self.new_streams) =~= ids(self.new_streams)
                + Seq::<StreamId>::empty());
        } else {
            let act = acts.first();
            let rest = acts.drop_first();
            let next = self.after(act);
            next.accepted_in_order(rest);
            let last = self.after_all(acts).new_streams;
            let later = next.handed_out(rest);
            let since = next.opened_by_acts(rest);
            match act {
                Act::Accept => {
                    let now = self.new_streams.take(
                        if self.new_streams.len() > 0 {
                            1
                        } else {
                            0
                        },
                    );
                    assert(ids((now + later) + last) =~= ids(now) + ids(later + last));
                    assert(ids(now) + ids(next.new_streams) =~= ids(self.new_streams));
                    assert(ids((now + later) + last) =~= ids(self.new_streams) + since);
                    assert(Seq::<StreamId>::empty() + since =~= since);
                },
                Act::Receive(frame) => {
                    assert(Seq::<StreamView>::empty() + later =~= later);
                    if frame.flag == Flag::Open && !self.closed {
                        assert(ids(next.new_streams) =~= ids(self.new_streams) + seq![
                            frame.stream_id,
                        ]);
                        assert((ids(self.new_streams) + seq![frame.stream_id]) + since =~= ids(
                            self.new_streams,
                        ) + (seq![frame.stream_id] + since));
                    } else {
                        assert(Seq::<StreamId>::empty() + since =~= since);
                    }
                },
                _ => {
                    assert(Seq::<StreamView>::empty() + later =~= later);
                    assert(Seq::<StreamId>::empty() + since =~= since);
                },
            }
        }
    }
}

/// The identifiers of substreams.
pub open spec fn ids(streams: Seq<StreamView>) -> Seq<StreamId> {
    streams.map_values(|s: StreamView| s.id)
}

} // verus!
