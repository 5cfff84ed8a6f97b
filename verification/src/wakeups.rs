//! No waker gets lost: whoever was registered is still registered, or is
//! handed back to be woken.
use vstd::prelude::*;

use crate::drive::{all_woken, Woken};
use crate::frame::{Flag, FrameView};
use crate::incoming::IncomingView;
use crate::mplex::{readers_of, MultiplexerView};
use crate::session::Act;
use crate::stream::StreamView;

verus! {

/// Finds those among the states of `order` on which a reader waits.
proof fn parked_in_order<W>(incoming: Map<nat, IncomingView<W>>, order: Seq<nat>) -> (parked: Seq<
    nat,
>)
    requires
        order.no_duplicates(),
    ensures
        parked.no_duplicates(),
        forall|h: nat| #[trigger]
            parked.contains(h) <==> order.contains(h) && incoming[h].read_waker is Some,
        readers_of(incoming, order).len() == parked.len(),
        forall|i: int|
            0 <= i < parked.len() ==> Some(#[trigger] readers_of(incoming, order)[i])
                == incoming[parked[i]].read_waker,
    decreases order.len(),
{
    if order.len() == 0 {
        Seq::empty()
    } else {
        let init = order.drop_last();
        let last = order.last();
        let earlier = parked_in_order(incoming, init);
        assert(!init.contains(last)) by {
            if init.contains(last) {
                let i = init.index_of(last);
                assert(order[i] == order[order.len() - 1]);
            }
        }
        assert forall|h: nat| #[trigger] order.contains(h) <==> init.contains(h) || h == last by {
            if init.contains(h) {
                assert(order[init.index_of(h)] == h);
            }
            if order.contains(h) && h != last {
                let i = order.index_of(h);
                assert(init[i] == h);
            }
            assert(order[order.len() - 1] == last);
        }
        if incoming[last].read_waker is Some {
            let all = earlier.push(last);
            assert forall|h: nat| #[trigger] all.contains(h) <==> earlier.contains(h) || h == last by {
                if earlier.contains(h) {
                    assert(all[earlier.index_of(h)] == h);
                }
                assert(all[earlier.len() as int] == last);
            }
            assert(!earlier.contains(last));
            assert forall|i: int, j: int|
                0 <= i < all.len() && 0 <= j < all.len() && i != j implies all[i] != all[j] by {
                if i < earlier.len() {
                    assert(earlier.contains(earlier[i]));
                }
                if j < earlier.len() {
                    assert(earlier.contains(earlier[j]));
                }
            }
            all
        } else {
            earlier
        }
    }
}

impl<W> MultiplexerView<W> {
    /// Those who are woken when a session is shut down are exactly the readers
    /// that wait on any handle, each of them once.
    pub proof fn every_reader_is_woken(self, wakers: Seq<W>)
        requires
            self.all_readers(wakers),
        ensures
            exists|parked: Seq<nat>|
                {
                    &&& #[trigger] parked.no_duplicates()
                    &&& parked.len() == wakers.len()
                    &&& forall|h: nat| #[trigger]
                        parked.contains(h) <==> self.incoming.contains_key(h)
                            && self.incoming[h].read_waker is Some
                    &&& forall|i: int|
                        0 <= i < wakers.len() ==> Some(#[trigger] wakers[i])
                            == self.incoming[parked[i]].read_waker
                },
            forall|h: nat, w: W|
                self.incoming.contains_key(h) && #[trigger] self.incoming[h].read_waker == Some(w)
                    ==> #[trigger] wakers.contains(w),
            forall|w: W| #[trigger]
                wakers.contains(w) ==> exists|h: nat|
                    self.incoming.contains_key(h) && #[trigger] self.incoming[h].read_waker == Some(
                        w,
                    ),
    {
        let order = choose|order: Seq<nat>|
            {
                &&& order.no_duplicates()
                &&& forall|h: nat| #[trigger] order.contains(h) <==> self.incoming.contains_key(h)
                &&& wakers == #[trigger] readers_of(self.incoming, order)
            };
        let parked = parked_in_order(self.incoming, order);
        assert(parked.no_duplicates());
        assert forall|h: nat, w: W|
            self.incoming.contains_key(h) && #[trigger] self.incoming[h].read_waker == Some(
                w,
            ) implies #[trigger] wakers.contains(w) by {
            assert(parked.contains(h));
            let i = parked.index_of(h);
            assert(wakers[i] == w);
        }
        assert forall|w: W| #[trigger] wakers.contains(w) implies exists|h: nat|
            self.incoming.contains_key(h) && #[trigger] self.incoming[h].read_waker == Some(w) by {
            let i = wakers.index_of(w);
            assert(Some(wakers[i]) == self.incoming[parked[i]].read_waker);
            assert(parked.contains(parked[i]));
        }
    }

    /// A frame from the peer takes a waker out of the session only to have it
    /// woken, and wakes only those whom it takes out. On an active substream, a
    /// `Data` or a `Close` wakes exactly the reader that waits there, whatever
    /// else goes on in the session; an `Open` exactly the accepter.
    pub proof fn frames_lose_no_waker(self, frame: FrameView, readers: Seq<W>, accepter: Option<W>)
        requires
            self.inv(),
            self.dispatch_wakes(frame, readers, accepter),
        ensures
            forall|h: nat, w: W|
                self.incoming.contains_key(h) && #[trigger] self.incoming[h].read_waker == Some(w)
                    && self.dispatch(frame).incoming[h].read_waker != Some(w)
                    ==> #[trigger] readers.contains(w),
            forall|w: W| #[trigger]
                readers.contains(w) ==> exists|h: nat|
                    self.incoming.contains_key(h) && #[trigger] self.incoming[h].read_waker == Some(
                        w,
                    ) && self.dispatch(frame).incoming[h].read_waker is None,
            self.accept_waker is Some && self.dispatch(frame).accept_waker != self.accept_waker
                ==> accepter == self.accept_waker,
            accepter is Some ==> accepter == self.accept_waker && self.dispatch(
                frame,
            ).accept_waker is None,
            frame.flag is Data || frame.flag is Close ==> ({
                let id = frame.stream_id.0;
                &&& accepter is None
                &&& self.dispatch(frame).accept_waker == self.accept_waker
                &&& self.streams.contains_key(id) ==> ({
                    let waiting = self.incoming[self.streams[id]].read_waker;
                    &&& waiting matches Some(w) ==> readers == seq![w]
                    &&& waiting is None ==> readers.len() == 0
                })
                &&& !self.streams.contains_key(id) ==> readers.len() == 0
            }),
            frame.flag is Open ==> ({
                &&& readers.len() == 0
                &&& self.closed ==> accepter is None
                &&& !self.closed ==> accepter == self.accept_waker
            }),
            frame.flag is GoAway ==> ({
                &&& accepter == self.accept_waker
                &&& forall|h: nat, w: W|
                    self.incoming.contains_key(h) && #[trigger] self.incoming[h].read_waker == Some(
                        w,
                    ) ==> #[trigger] readers.contains(w)
            }),
    {
        let id = frame.stream_id.0;
        let after = self.dispatch(frame);
        match frame.flag {
            Flag::GoAway => {
                self.every_reader_is_woken(readers);
                assert forall|w: W| #[trigger] readers.contains(w) implies exists|h: nat|
                    self.incoming.contains_key(h) && #[trigger] self.incoming[h].read_waker == Some(
                        w,
                    ) && after.incoming[h].read_waker is None by {
                    let h = choose|h: nat|
                        self.incoming.contains_key(h) && #[trigger] self.incoming[h].read_waker
                            == Some(w);
                    assert(after.incoming[h].read_waker is None);
                }
            },
            Flag::Open => {},
            _ => {
                if self.streams.contains_key(id) {
                    let h = self.streams[id];
                    if let Some(w) = self.incoming[h].read_waker {
                        assert(readers[0] == w);
                        assert(readers =~= seq![w]);
                        assert(after.incoming[h].read_waker is None);
                    }
                }
            },
        }
    }

    /// The accepter's waker stays registered until the accepter is woken or
    /// waits anew: nothing but an `Open` or a `GoAway` of the peer and a
    /// shutdown touches it.
    pub proof fn accepter_stays_registered(
        self,
        h: nat,
        limit: nat,
        waker: W,
        frame: FrameView,
        id: u32,
        s: StreamView,
    )
        ensures
            self.read(h, limit, waker).accept_waker == self.accept_waker,
            self.begin_open().accept_waker == self.accept_waker,
            self.close_stream(id).accept_waker == self.accept_waker,
            self.release(s).accept_waker == self.accept_waker,
            self.send(frame).accept_waker == self.accept_waker,
            self.send_late(frame).accept_waker == self.accept_waker,
            frame.flag is Data || frame.flag is Close ==> self.dispatch(frame).accept_waker
                == self.accept_waker,
            frame.flag is Open && self.closed ==> self.dispatch(frame).accept_waker
                == self.accept_waker,
    {
    }

    /// The same, of everything that can happen in a session.
    pub proof fn accepter_outlasts_other_acts(self, act: Act<W>)
        ensures
            match act {
                Act::Receive(frame) => frame.flag is Open || frame.flag is GoAway || self.after(
                    act,
                ).accept_waker == self.accept_waker,
                Act::CloseAll => true,
                Act::Wait(waker) => self.after(act).accept_waker == Some(waker),
                _ => self.after(act).accept_waker == self.accept_waker,
            },
    {
    }

    /// A reader's waker stays registered, whatever this side does with other
    /// handles: a read of another one, opening, sending, closing or giving up
    /// another one.
    pub proof fn reader_stays_registered(
        self,
        x: nat,
        h: nat,
        limit: nat,
        waker: W,
        frame: FrameView,
        id: u32,
        s: StreamView,
    )
        requires
            self.inv(),
            self.incoming.contains_key(x),
            self.incoming.contains_key(h),
            self.lent(s),
        ensures
            x != h ==> self.read(h, limit, waker).incoming[x].read_waker
                == self.incoming[x].read_waker,
            self.begin_open().incoming[x].read_waker == self.incoming[x].read_waker,
            self.send(frame).incoming[x].read_waker == self.incoming[x].read_waker,
            self.send_late(frame).incoming[x].read_waker == self.incoming[x].read_waker,
            self.incoming[x].id.0 != id ==> self.close_stream(id).incoming[x].read_waker
                == self.incoming[x].read_waker,
            x != s.handle ==> self.release(s).incoming[x].read_waker
                == self.incoming[x].read_waker,
    {
    }

    /// Frames that are applied one after the other do what the last of them
    /// does after the others.
    pub proof fn frames_apply_in_turn(self, frames: Seq<FrameView>, last: FrameView)
        ensures
            self.dispatch_all(Seq::empty()) == self,
            self.dispatch_all(frames.push(last)) == self.dispatch_all(frames).dispatch(last),
    {
        assert(frames.push(last).drop_last() =~= frames);
    }

    /// The wakers of a delivery, frame by frame, lose nobody.
    proof fn woken_lose_nobody(self, frames: Seq<FrameView>, woken: Seq<Woken<W>>)
        requires
            self.inv(),
            self.dispatch_all_wakes(frames, woken),
        ensures
            self.dispatch_all(frames).inv(),
            forall|h: nat| #[trigger]
                self.incoming.contains_key(h) ==> self.dispatch_all(frames).incoming.contains_key(h),
            forall|h: nat, w: W|
                self.incoming.contains_key(h) && #[trigger] self.incoming[h].read_waker == Some(w)
                    && self.dispatch_all(frames).incoming[h].read_waker != Some(w)
                    ==> #[trigger] all_woken(woken).contains(w),
            forall|w: W|
                self.accept_waker == Some(w) && self.dispatch_all(frames).accept_waker != Some(w)
                    ==> #[trigger] all_woken(woken).contains(w),
        decreases frames.len(),
    {
        if frames.len() > 0 {
            let init = frames.drop_last();
            let earlier = woken.drop_last();
            let last = woken.last();
            let k = frames.len() - 1;
            assert forall|i: int| 0 <= i < init.len() implies self.dispatch_all(
                #[trigger] init.take(i),
            ).dispatch_wakes(init[i], earlier[i].readers, earlier[i].accepter) by {
                assert(init.take(i) =~= frames.take(i));
            }
            self.woken_lose_nobody(init, earlier);
            let mid = self.dispatch_all(init);
            let end = self.dispatch_all(frames);
            assert(frames.take(k) =~= init);
            assert(frames[k] == frames.last() && woken[k] == last);
            mid.frames_lose_no_waker(frames.last(), last.readers, last.accepter);
            mid.act_keeps_inv(Act::Receive(frames.last()));
            assert(mid.after(Act::Receive(frames.last())) == end);
            let all = all_woken(woken);
            let before = all_woken(earlier);
            assert forall|w: W| #[trigger] before.contains(w) implies all.contains(w) by {
                assert(all[before.index_of(w)] == w);
            }
            assert forall|w: W| #[trigger] last.readers.contains(w) implies all.contains(w) by {
                assert(all[before.len() + last.readers.index_of(w)] == w);
            }
            if let Some(w) = last.accepter {
                assert(all[before.len() + last.readers.len() as int] == w);
                assert(all.contains(w));
            }
            assert forall|h: nat, w: W|
                self.incoming.contains_key(h) && #[trigger] self.incoming[h].read_waker == Some(w)
                    && end.incoming[h].read_waker != Some(w) implies #[trigger] all.contains(w) by {
                assert(mid.incoming.contains_key(h));
                if mid.incoming[h].read_waker == Some(w) {
                    assert(last.readers.contains(w));
                } else {
                    assert(before.contains(w));
                }
            }
            assert forall|w: W|
                self.accept_waker == Some(w) && end.accept_waker != Some(
                    w,
                ) implies #[trigger] all.contains(w) by {
                if mid.accept_waker != Some(w) {
                    assert(before.contains(w));
                }
            }
        }
    }

    /// However many frames a read from the transport brings, each reader and
    /// the accepter that they take out of the session are woken.
    pub proof fn delivery_loses_no_waker(self, frames: Seq<FrameView>, wakers: Seq<W>)
        requires
            self.inv(),
            self.delivery_wakes(frames, wakers),
        ensures
            forall|h: nat, w: W|
                self.incoming.contains_key(h) && #[trigger] self.incoming[h].read_waker == Some(w)
                    && self.dispatch_all(frames).incoming[h].read_waker != Some(w)
                    ==> #[trigger] wakers.contains(w),
            forall|w: W|
                self.accept_waker == Some(w) && self.dispatch_all(frames).accept_waker != Some(w)
                    ==> #[trigger] wakers.contains(w),
    {
        let woken = choose|woken: Seq<Woken<W>>| #[trigger]
            self.dispatch_all_wakes(frames, woken) && wakers == all_woken(woken);
        self.woken_lose_nobody(frames, woken);
    }

    /// When the task that drives the transport stops, everyone is woken who
    /// waited before its last step: by the frames that came, or by the end.
    pub proof fn stopping_wakes_everyone(
        self,
        frames: Seq<FrameView>,
        earlier: Seq<W>,
        readers: Seq<W>,
        w: W,
    )
        requires
            self.inv(),
            self.delivery_wakes(frames, earlier),
            self.dispatch_all(frames).all_readers(readers),
        ensures
            forall|h: nat|
                self.incoming.contains_key(h) && #[trigger] self.incoming[h].read_waker == Some(w)
                    ==> earlier.contains(w) || readers.contains(w),
            self.accept_waker == Some(w) ==> earlier.contains(w) || self.dispatch_all(
                frames,
            ).accept_waker == Some(w),
    {
        let served = self.dispatch_all(frames);
        let woken = choose|woken: Seq<Woken<W>>| #[trigger]
            self.dispatch_all_wakes(frames, woken) && earlier == all_woken(woken);
        self.woken_lose_nobody(frames, woken);
        served.every_reader_is_woken(readers);
        assert forall|h: nat|
            self.incoming.contains_key(h) && #[trigger] self.incoming[h].read_waker == Some(
                w,
            ) implies earlier.contains(w) || readers.contains(w) by {
            assert(served.incoming.contains_key(h));
            if served.incoming[h].read_waker != Some(w) {
                assert(all_woken(woken).contains(w));
            } else {
                assert(readers.contains(w));
            }
        }
    }
}

} // verus!
