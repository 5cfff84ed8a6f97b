//! The multiplexer: which substreams there are, what each frame does to them,
//! and what the transport is to be sent.
use bytes::{Bytes, BytesMut};
use std::collections::{HashMap, VecDeque};
use tokio::sync::mpsc::{UnboundedReceiver, UnboundedSender};
use vstd::prelude::*;

use crate::arena::Arena;
use crate::buffer::{bytes_slice, bytes_view};
use crate::channel::{offered, outgoing_channel, queued, send};
use crate::codec::FrameCodec;
use crate::error::Error;
use crate::frame::{
    be_value, read_u32, Flag, Frame, FrameView, StreamId, FRAME_HEADER_LEN, MAX_FRAME_PAYLOAD,
};
use crate::incoming::{IncomingState, IncomingView, Poll};
use crate::stream::{Stream, StreamView};

verus! {

/// Which side of the underlying connection a [`Multiplexer`] is.
///
/// Stream IDs are partitioned by side to avoid collisions. The two sides of a
/// session must pick opposite values.
#[derive(Clone, Copy, Debug, PartialEq, Eq, Structural)]
pub enum Side {
    /// The dialing side; mints odd stream IDs (`1`, `3`, `5`, ...).
    Initiator,
    /// The listening side; mints even stream IDs (`2`, `4`, `6`, ...).
    Responder,
}

impl Side {
    /// The first ID that a side mints.
    pub open spec fn first_id(self) -> u32 {
        match self {
            Side::Initiator => 1,
            Side::Responder => 2,
        }
    }

    /// The IDs that a side mints. `0` is reserved.
    pub open spec fn mints(self, id: u32) -> bool {
        id != 0 && id % 2 == self.first_id() % 2
    }

    /// The ID that a side mints after `id`. Behind the last one it starts over.
    pub open spec fn next_id(self, id: u32) -> u32 {
        if id + 2 <= u32::MAX {
            (id + 2) as u32
        } else {
            self.first_id()
        }
    }
}

/// The model of a [`Multiplexer`].
pub struct MultiplexerView<W> {
    /// The side of the connection.
    pub side: Side,
    /// The active substreams: the handle of each one's incoming state.
    pub streams: Map<u32, nat>,
    /// The incoming states that a substream handle, or an active substream,
    /// still refers to.
    pub incoming: Map<nat, IncomingView<W>>,
    /// The next handle to give out.
    pub next_handle: nat,
    /// The next ID to mint for a locally opened substream.
    pub next_id: u32,
    /// Substreams opened by the peer, awaiting `accept`.
    pub new_streams: Seq<StreamView>,
    /// Whom to wake when the peer opens a substream.
    pub accept_waker: Option<W>,
    /// Whether the session has been shut down.
    pub closed: bool,
    /// The reason of the peer's `GoAway`, if one came.
    pub goaway_reason: Option<u32>,
    /// Whether the task that drives the transport was told to stop.
    pub signalled: bool,
    /// What the task that drives the transport was given, in order.
    pub queued: Seq<Seq<u8>>,
    /// The same, with what it turned out to be too late for.
    pub offered: Seq<Seq<u8>>,
}

/// The items of an option: none or one.
pub open spec fn option_seq<T>(option: Option<T>) -> Seq<T> {
    match option {
        Some(item) => seq![item],
        None => Seq::empty(),
    }
}

/// The readers that wait on the incoming states of `order`, in that order.
pub open spec fn readers_of<W>(incoming: Map<nat, IncomingView<W>>, order: Seq<nat>) -> Seq<W>
    decreases order.len(),
{
    if order.len() == 0 {
        Seq::empty()
    } else {
        readers_of(incoming, order.drop_last()) + option_seq(incoming[order.last()].read_waker)
    }
}

/// A sequence grown by one item holds that item and what it held before.
proof fn push_contains(s: Seq<nat>, item: nat)
    ensures
        forall|x: nat| #[trigger] s.push(item).contains(x) <==> s.contains(x) || x == item,
        s.no_duplicates() && !s.contains(item) ==> s.push(item).no_duplicates(),
{
    assert forall|x: nat| #[trigger] s.push(item).contains(x) <==> s.contains(x) || x == item by {
        if s.contains(x) {
            let i = s.index_of(x);
            assert(s.push(item)[i] == x);
        }
        if x == item {
            assert(s.push(item)[s.len() as int] == x);
        }
    }
}

impl<W> MultiplexerView<W> {
    /// What holds of a session at all times.
    pub open spec fn inv(self) -> bool {
        &&& self.side.mints(self.next_id)
        // An active substream has an open incoming state of its own.
        &&& forall|id: u32| #[trigger]
            self.streams.contains_key(id) ==> self.incoming.contains_key(self.streams[id])
                && self.incoming[self.streams[id]].id == StreamId(id)
                && !self.incoming[self.streams[id]].closed
        // Handles are given out in order, and what waits to be read is not empty.
        &&& forall|h: nat| #[trigger]
            self.incoming.contains_key(h) ==> h < self.next_handle
                && self.incoming[h].no_empty_chunk()
        // A queued substream has an incoming state of its own.
        &&& forall|i: int|
            0 <= i < self.new_streams.len() ==> {
                let s = #[trigger] self.new_streams[i];
                self.incoming.contains_key(s.handle) && self.incoming[s.handle].id == s.id
                    && !s.outgoing_closed
            }
        &&& forall|i: int, j: int|
            0 <= i < j < self.new_streams.len() ==> (#[trigger] self.new_streams[i]).handle != (
            #[trigger] self.new_streams[j]).handle
        // In a session that was shut down no substream is active, and every
        // incoming state is closed.
        &&& self.closed ==> self.streams =~= Map::<u32, nat>::empty()
        &&& self.closed ==> forall|h: nat| #[trigger]
            self.incoming.contains_key(h) ==> self.incoming[h].closed
    }

    /// A substream handle that was given out and is still in use.
    pub open spec fn lent(self, s: StreamView) -> bool {
        &&& self.incoming.contains_key(s.handle)
        &&& self.incoming[s.handle].id == s.id
        &&& forall|i: int|
            0 <= i < self.new_streams.len() ==> (#[trigger] self.new_streams[i]).handle != s.handle
    }

    /// An incoming state that inbound frames still reach.
    pub open spec fn attached(self, h: nat) -> bool {
        &&& self.incoming.contains_key(h)
        &&& self.streams.contains_key(self.incoming[h].id.0)
        &&& self.streams[self.incoming[h].id.0] == h
    }

    /// The reader that waits on an active substream, if there is one.
    pub open spec fn reader_of(self, id: u32) -> Option<W> {
        if self.streams.contains_key(id) {
            self.incoming[self.streams[id]].read_waker
        } else {
            None
        }
    }

    /// `wakers` are all the readers that wait, each of them once, in some
    /// order.
    pub open spec fn all_readers(self, wakers: Seq<W>) -> bool {
        exists|order: Seq<nat>|
            {
                &&& order.no_duplicates()
                &&& forall|h: nat| #[trigger] order.contains(h) <==> self.incoming.contains_key(h)
                &&& wakers == #[trigger] readers_of(self.incoming, order)
            }
    }

    /// A substream becomes active, with a new handle.
    pub open spec fn register(self, id: StreamId) -> Self {
        MultiplexerView {
            streams: self.streams.insert(id.0, self.next_handle),
            incoming: self.incoming.insert(self.next_handle, IncomingView::fresh(id)),
            next_handle: self.next_handle + 1,
            ..self
        }
    }

    /// A substream is no longer active, and its incoming state is closed.
    pub open spec fn close_stream(self, id: u32) -> Self {
        if self.streams.contains_key(id) {
            let h = self.streams[id];
            MultiplexerView {
                streams: self.streams.remove(id),
                incoming: self.incoming.insert(h, self.incoming[h].close()),
                ..self
            }
        } else {
            self
        }
    }

    /// No substream is active any more, and every incoming state is closed.
    pub open spec fn close_streams(self) -> Self {
        MultiplexerView {
            streams: Map::empty(),
            incoming: self.incoming.map_values(|state: IncomingView<W>| state.close()),
            ..self
        }
    }

    /// The session is shut down, by this side or by the peer.
    pub open spec fn close_all(self) -> Self {
        MultiplexerView { closed: true, accept_waker: None, ..self.close_streams() }
    }

    /// A handle's substream is no longer active, and its incoming state is
    /// closed. Where the peer has opened the substream anew, the new one stays
    /// as it is.
    pub open spec fn detach(self, s: StreamView) -> Self {
        if self.attached(s.handle) {
            self.close_stream(s.id.0)
        } else {
            self
        }
    }

    /// A substream of this side's own becomes active.
    pub open spec fn begin_open(self) -> Self {
        MultiplexerView {
            next_id: self.side.next_id(self.next_id),
            ..self.register(StreamId(self.next_id))
        }
    }

    /// The handle that goes with it.
    pub open spec fn opening(self) -> StreamView {
        StreamView {
            id: StreamId(self.next_id),
            handle: self.next_handle,
            outgoing_closed: false,
        }
    }

    /// A read of at most `limit` bytes through a handle.
    pub open spec fn read(self, h: nat, limit: nat, waker: W) -> Self {
        MultiplexerView {
            incoming: self.incoming.insert(h, self.incoming[h].after_read(limit, waker)),
            ..self
        }
    }

    /// A handle is given up, and its substream closed.
    pub open spec fn release(self, s: StreamView) -> Self {
        let closed = self.detach(s);
        MultiplexerView { incoming: closed.incoming.remove(s.handle), ..closed }
    }

    /// A frame is handed to the task that drives the transport.
    pub open spec fn send(self, frame: FrameView) -> Self {
        MultiplexerView {
            queued: self.queued.push(frame.wire()),
            offered: self.offered.push(frame.wire()),
            ..self
        }
    }

    /// A frame is handed over, but the task that drives the transport is gone.
    pub open spec fn send_late(self, frame: FrameView) -> Self {
        MultiplexerView { offered: self.offered.push(frame.wire()), ..self }
    }

    /// Why a frame cannot even be handed over, if there is a reason.
    pub open spec fn refusal(self, frame: FrameView) -> Option<Error> {
        if self.closed {
            Some(Error::BrokenPipe)
        } else if !frame.fits() {
            Some(Error::Unencodable)
        } else {
            None
        }
    }

    /// What sending a frame comes to: it is refused; or it is handed over, and
    /// then either taken or not, because the task that drives the transport is
    /// gone.
    pub open spec fn sends(self, frame: FrameView, result: Result<(), Error>, after: Self) -> bool {
        match self.refusal(frame) {
            Some(error) => result == Err::<(), Error>(error) && after == self,
            None => match result {
                Ok(_) => after == self.send(frame),
                Err(error) => error == Error::BrokenPipe && after == self.send_late(frame),
            },
        }
    }

    /// The session is shut down, and the task that drives the transport is
    /// told so, once.
    pub open spec fn shutdown(self) -> Self {
        MultiplexerView { signalled: true, ..self.close_all() }
    }

    /// What a frame from the peer does.
    pub open spec fn dispatch(self, frame: FrameView) -> Self {
        match frame.flag {
            Flag::Open => if self.closed {
                self
            } else {
                MultiplexerView {
                    new_streams: self.new_streams.push(
                        StreamView {
                            id: frame.stream_id,
                            handle: self.next_handle,
                            outgoing_closed: false,
                        },
                    ),
                    accept_waker: None,
                    ..self.register(frame.stream_id)
                }
            },
            Flag::Data => if self.streams.contains_key(frame.stream_id.0) {
                let h = self.streams[frame.stream_id.0];
                MultiplexerView {
                    incoming: self.incoming.insert(h, self.incoming[h].arrive(frame.payload)),
                    ..self
                }
            } else {
                self
            },
            Flag::Close => self.close_stream(frame.stream_id.0),
            Flag::GoAway => MultiplexerView {
                goaway_reason: if frame.payload.len() >= 4 {
                    Some(be_value(frame.payload.take(4)))
                } else {
                    self.goaway_reason
                },
                ..self.close_all()
            },
        }
    }

    /// Whom a frame from the peer wakes.
    pub open spec fn dispatch_wakes(
        self,
        frame: FrameView,
        readers: Seq<W>,
        accepter: Option<W>,
    ) -> bool {
        match frame.flag {
            Flag::Open => {
                &&& readers == Seq::<W>::empty()
                &&& accepter == if self.closed {
                    None
                } else {
                    self.accept_waker
                }
            },
            Flag::Data | Flag::Close => {
                &&& readers == option_seq(self.reader_of(frame.stream_id.0))
                &&& accepter is None
            },
            Flag::GoAway => {
                &&& self.all_readers(readers)
                &&& accepter == self.accept_waker
            },
        }
    }
}

/// What is left to do when a session has been shut down.
pub struct Teardown<W> {
    /// The readers to wake.
    pub read_wakers: Vec<W>,
    /// The accepter to wake.
    pub accept_waker: Option<W>,
    /// Whether the task that drives the transport is to be told to stop.
    pub signal: bool,
}

/// A session: the substreams of one connection, as one side sees them.
///
/// `W` is whatever wakes a task that waits for the session.
pub struct Multiplexer<W> {
    side: Ghost<Side>,
    streams: HashMap<u32, usize>,
    arena: Arena<W>,
    next_handle: Ghost<nat>,
    next_id: u32,
    new_streams: VecDeque<Stream>,
    accept_waker: Option<W>,
    closed: bool,
    goaway_reason: Option<u32>,
    signalled: bool,
    outgoing_tx: UnboundedSender<Bytes>,
}

impl<W> View for Multiplexer<W> {
    type V = MultiplexerView<W>;

    closed spec fn view(&self) -> MultiplexerView<W> {
        MultiplexerView {
            side: self.side@,
            streams: self.streams@.map_values(|slot: usize| self.arena.handle_at(slot).unwrap()),
            incoming: self.arena@,
            next_handle: self.next_handle@,
            next_id: self.next_id,
            new_streams: self.new_streams@.map_values(|s: Stream| s@),
            accept_waker: self.accept_waker,
            closed: self.closed,
            goaway_reason: self.goaway_reason,
            signalled: self.signalled,
            queued: queued(self.outgoing_tx),
            offered: offered(self.outgoing_tx),
        }
    }
}

impl<W> Multiplexer<W> {
    /// The representation is sound, and the model keeps its invariant.
    pub closed spec fn wf(self) -> bool {
        &&& self.arena.wf()
        &&& forall|id: u32| #[trigger]
            self.streams@.contains_key(id) ==> self.arena.handle_at(self.streams@[id]) is Some
        &&& forall|i: int|
            0 <= i < self.new_streams@.len() ==> self.arena.handle_at(
                (#[trigger] self.new_streams@[i]).slot(),
            ) == Some(self.new_streams@[i]@.handle)
        &&& self@.inv()
    }

    /// The handle `s` was given out by this session, and is still in use.
    pub closed spec fn owns(self, s: Stream) -> bool {
        &&& self@.lent(s@)
        &&& self.arena.handle_at(s.slot()) == Some(s@.handle)
    }

    /// Every handle of `before` still belongs to this session.
    pub open spec fn keeps(self, before: Self) -> bool {
        forall|s: Stream|
            #![trigger before.owns(s)]
            #![trigger self.owns(s)]
            before.owns(s) ==> self.owns(s)
    }

    /// Every handle of `before` but one still belongs to this session.
    pub open spec fn keeps_but(self, before: Self, handle: nat) -> bool {
        forall|s: Stream|
            #![trigger before.owns(s)]
            #![trigger self.owns(s)]
            before.owns(s) && s@.handle != handle ==> self.owns(s)
    }

    /// What a sound session, and a handle of it, look like in the model.
    pub proof fn model_holds(self)
        requires
            self.wf(),
        ensures
            self@.inv(),
            forall|s: Stream| #[trigger] self.owns(s) ==> self@.lent(s@),
    {
    }

    /// Whether a handle belongs to a session does not depend on whether it can
    /// still be written to.
    pub proof fn owns_by_place(self, a: Stream, b: Stream)
        requires
            a@.id == b@.id,
            a@.handle == b@.handle,
            a.slot() == b.slot(),
        ensures
            self.owns(a) == self.owns(b),
    {
    }

    /// A handle in use has another slot than one that is still queued.
    proof fn lent_slots_differ(self, s: Stream)
        requires
            self.wf(),
            self.owns(s),
        ensures
            forall|i: int|
                0 <= i < self.new_streams@.len() ==> (#[trigger] self.new_streams@[i]).slot()
                    != s.slot(),
    {
        assert forall|i: int| 0 <= i < self.new_streams@.len() implies (
        #[trigger] self.new_streams@[i]).slot() != s.slot() by {
            assert(self@.new_streams[i] == self.new_streams@[i]@);
        }
    }

    /// Starts a session. The receiver is what the task that drives the
    /// transport takes outgoing frames from.
    pub fn new(side: Side) -> (session: (Self, UnboundedReceiver<Bytes>))
        ensures
            session.0.wf(),
            session.0@ == (MultiplexerView::<W> {
                side,
                streams: Map::empty(),
                incoming: Map::empty(),
                next_handle: 0,
                next_id: side.first_id(),
                new_streams: Seq::empty(),
                accept_waker: None,
                closed: false,
                goaway_reason: None,
                signalled: false,
                queued: Seq::empty(),
                offered: Seq::empty(),
            }),
    {
        let (outgoing_tx, outgoing_rx) = outgoing_channel();
        let next_id: u32 = match side {
            Side::Initiator => 1,
            Side::Responder => 2,
        };
        let mux = Multiplexer {
            side: Ghost(side),
            streams: HashMap::new(),
            arena: Arena::new(),
            next_handle: Ghost(0),
            next_id,
            new_streams: VecDeque::new(),
            accept_waker: None,
            closed: false,
            goaway_reason: None,
            signalled: false,
            outgoing_tx,
        };
        assert(mux@.streams =~= Map::<u32, nat>::empty());
        assert(mux@.new_streams =~= Seq::<StreamView>::empty());
        (mux, outgoing_rx)
    }

    /// Makes a substream active, and returns the handle to it.
    fn register(&mut self, id: StreamId) -> (stream: Stream)
        requires
            old(self).wf(),
            !old(self)@.closed,
        ensures
            final(self).wf(),
            final(self).keeps(*old(self)),
            final(self)@ == old(self)@.register(id),
            final(self).owns(stream),
            stream@ == (StreamView {
                id,
                handle: old(self)@.next_handle,
                outgoing_closed: false,
            }),
    {
        broadcast use vstd::std_specs::hash::group_hash_axioms;

        let ghost before = *self;
        let ghost handle = self.next_handle@;
        let slot = self.arena.insert(IncomingState::new(id), Ghost(handle));
        self.streams.insert(id.get(), slot);
        self.next_handle = Ghost(handle + 1);
        assert(self@.streams =~= before@.register(id).streams);
        assert(self@.new_streams =~= before@.new_streams);
        Stream::new(id, slot, Ghost(handle))
    }

    /// Closes a substream on this side, and returns the waker of a reader that
    /// waits on it.
    pub fn close_local_stream(&mut self, id: StreamId) -> (waker: Option<W>)
        requires
            old(self).wf(),
        ensures
            final(self).wf(),
            final(self).keeps(*old(self)),
            final(self)@ == old(self)@.close_stream(id.0),
            waker == old(self)@.reader_of(id.0),
    {
        broadcast use vstd::std_specs::hash::group_hash_axioms;

        let ghost before = *self;
        proof {
            self.arena.handles_are_places();
        }
        let waker = match self.streams.remove(&id.get()) {
            Some(slot) => self.arena.get_mut(slot).close(),
            None => None,
        };
        assert(self@.streams =~= before@.close_stream(id.0).streams);
        assert(self@.new_streams =~= before@.new_streams);
        waker
    }

    /// Closes every substream, also for the handles of substreams that are no
    /// longer active, and returns the wakers of the readers that wait.
    fn close_streams(&mut self) -> (wakers: Vec<W>)
        requires
            old(self).wf(),
        ensures
            final(self).wf(),
            final(self).keeps(*old(self)),
            final(self)@ == old(self)@.close_streams(),
            old(self)@.all_readers(wakers@),
    {
        broadcast use vstd::std_specs::hash::group_hash_axioms;

        let ghost before = *self;
        let mut wakers: Vec<W> = Vec::new();
        let ghost mut order: Seq<nat> = Seq::empty();
        let count: usize = self.arena.slot_count();
        let mut slot: usize = 0;
        while slot < count
            invariant
                slot <= count,
                count == before.arena.size(),
                count == self.arena.size(),
                before.wf(),
                self.arena.wf(),
                forall|s: usize| #[trigger]
                    self.arena.handle_at(s) == before.arena.handle_at(s),
                *self == (Multiplexer { arena: self.arena, ..before }),
                order.no_duplicates(),
                forall|h: nat| #[trigger]
                    order.contains(h) <==> before.arena@.contains_key(h) && before.arena.slot_of(h)
                        < slot,
                wakers@ == readers_of(before@.incoming, order),
                self.arena@.dom() == before.arena@.dom(),
                forall|h: nat| #[trigger]
                    before.arena@.contains_key(h) ==> self.arena@[h] == if order.contains(h) {
                        before.arena@[h].close()
                    } else {
                        before.arena@[h]
                    },
            decreases count - slot,
        {
            let ghost earlier = order;
            proof {
                before.arena.handles_are_places();
            }
            if self.arena.is_used(slot) {
                let ghost handle = self.arena.handle_at(slot).unwrap();
                let waker = self.arena.get_mut(slot).close();
                if let Some(w) = waker {
                    wakers.push(w);
                }
                proof {
                    order = order.push(handle);
                    assert(order.drop_last() =~= earlier);
                    push_contains(earlier, handle);
                }
            }
            slot = slot + 1;
        }
        self.streams.clear();
        proof {
            before.arena.handles_are_places();
            assert(self@.streams =~= Map::<u32, nat>::empty());
            assert(self@.incoming =~= before@.close_streams().incoming);
            assert(before@.all_readers(wakers@));
        }
        wakers
    }

    /// Marks every substream as closed and returns the readers and the accepter
    /// to wake.
    pub fn close_all(&mut self) -> (wakers: (Vec<W>, Option<W>))
        requires
            old(self).wf(),
        ensures
            final(self).wf(),
            final(self).keeps(*old(self)),
            final(self)@ == old(self)@.close_all(),
            old(self)@.all_readers(wakers.0@),
            wakers.1 == old(self)@.accept_waker,
    {
        let read_wakers = self.close_streams();
        self.closed = true;
        let accept_waker = self.accept_waker.take();
        (read_wakers, accept_waker)
    }

    /// Closes the session: every substream is marked closed, and a pending
    /// `accept` resolves to an error. What has arrived can still be read.
    pub fn shutdown(&mut self) -> (teardown: Teardown<W>)
        requires
            old(self).wf(),
        ensures
            final(self).wf(),
            final(self).keeps(*old(self)),
            final(self)@ == old(self)@.shutdown(),
            old(self)@.all_readers(teardown.read_wakers@),
            teardown.accept_waker == old(self)@.accept_waker,
            teardown.signal == !old(self)@.signalled,
    {
        let (read_wakers, accept_waker) = self.close_all();
        let signal: bool = !self.signalled;
        self.signalled = true;
        Teardown { read_wakers, accept_waker, signal }
    }

    /// Applies a frame from the peer, and returns the readers and the accepter
    /// to wake.
    pub fn dispatch(&mut self, frame: Frame) -> (wakers: (Vec<W>, Option<W>))
        requires
            old(self).wf(),
        ensures
            final(self).wf(),
            final(self).keeps(*old(self)),
            final(self)@ == old(self)@.dispatch(frame@),
            old(self)@.dispatch_wakes(frame@, wakers.0@, wakers.1),
    {
        broadcast use vstd::std_specs::hash::group_hash_axioms;

        let ghost before = *self;
        match frame.flag {
            Flag::Open => {
                if self.closed {
                    return (Vec::new(), None);
                }
                let stream = self.register(frame.stream_id);
                let ghost registered = *self;
                self.new_streams.push_back(stream);
                let accept_waker = self.accept_waker.take();
                assert(self@.new_streams =~= registered@.new_streams.push(stream@));
                (Vec::new(), accept_waker)
            },
            Flag::Data => {
                let mut wakers: Vec<W> = Vec::new();
                if let Some(slot) = self.streams.get(&frame.stream_id.get()) {
                    let waker = self.arena.get_mut(*slot).arrive(frame.payload);
                    if let Some(w) = waker {
                        wakers.push(w);
                    }
                    assert(self@.streams =~= before@.streams);
                }
                (wakers, None)
            },
            Flag::Close => {
                let mut wakers: Vec<W> = Vec::new();
                if let Some(w) = self.close_local_stream(frame.stream_id) {
                    wakers.push(w);
                }
                (wakers, None)
            },
            Flag::GoAway => {
                let (wakers, accept_waker) = self.close_all();
                // A payload that is too short says nothing about the reason.
                let payload = bytes_slice(&frame.payload);
                if payload.len() >= 4 {
                    assert(payload@.take(4) == payload@.subrange(0, 4));
                    self.goaway_reason = Some(read_u32(payload, 0));
                }
                (wakers, accept_waker)
            },
        }
    }

    /// Encodes a frame for the task that drives the transport.
    pub fn prepare_frame(&self, frame: Frame) -> (result: Result<Bytes, Error>)
        ensures
            match self@.refusal(frame@) {
                Some(error) => result == Err::<Bytes, Error>(error),
                None => result matches Ok(bytes) && bytes_view(bytes) == frame@.wire(),
            },
    {
        if self.closed {
            return Err(Error::BrokenPipe);
        }
        let length: usize = bytes_slice(&frame.payload).len();
        if length > MAX_FRAME_PAYLOAD as usize {
            return Err(Error::Unencodable);
        }
        let mut buf = BytesMut::with_capacity(FRAME_HEADER_LEN + length);
        let mut codec = FrameCodec;
        match codec.encode(frame, &mut buf) {
            Ok(_) => {
                let bytes = buf.freeze();
                assert(bytes_view(bytes) =~= frame@.wire());
                Ok(bytes)
            },
            Err(_) => Err(Error::Unencodable),
        }
    }

    /// Encodes a frame and hands it to the task that drives the transport.
    pub fn send_frame(&mut self, frame: Frame) -> (result: Result<(), Error>)
        requires
            old(self).wf(),
        ensures
            final(self).wf(),
            final(self).keeps(*old(self)),
            old(self)@.sends(frame@, result, final(self)@),
    {
        let bytes = match self.prepare_frame(frame) {
            Ok(bytes) => bytes,
            Err(error) => {
                return Err(error);
            },
        };
        if send(&mut self.outgoing_tx, bytes) {
            Ok(())
        } else {
            Err(Error::BrokenPipe)
        }
    }

    /// Mints an ID and makes the substream active. The peer has yet to be
    /// told.
    pub fn begin_open(&mut self) -> (result: Result<Stream, Error>)
        requires
            old(self).wf(),
        ensures
            final(self).wf(),
            final(self).keeps(*old(self)),
            if old(self)@.closed {
                &&& result == Err::<Stream, Error>(Error::Closed)
                &&& final(self)@ == old(self)@
            } else {
                &&& final(self)@ == old(self)@.begin_open()
                &&& result matches Ok(stream) && stream@ == old(self)@.opening() && final(self).owns(stream)
            },
    {
        if self.closed {
            return Err(Error::Closed);
        }
        let id: u32 = self.next_id;
        let next: u32 = id.wrapping_add(2);
        self.next_id = if next == 0 {
            2
        } else {
            next
        };
        let stream = self.register(StreamId(id));
        Ok(stream)
    }

    /// Completes [`Multiplexer::begin_open`] once it is known whether the peer
    /// will be told. If not, the substream is forgotten. Its ID stays used: a
    /// later one may have been minted meanwhile.
    pub fn finish_open(&mut self, stream: Stream, sent: Result<(), Error>) -> (result: Result<
        Stream,
        Error,
    >)
        requires
            old(self).wf(),
            old(self).owns(stream),
        ensures
            final(self).wf(),
            sent is Ok ==> final(self).keeps(*old(self)),
            final(self).keeps_but(*old(self), stream@.handle),
            match sent {
                Ok(_) => result == Ok::<Stream, Error>(stream) && final(self)@ == old(self)@,
                Err(error) => result == Err::<Stream, Error>(error) && final(self)@ == old(self)@.release(stream@),
            },
    {
        match sent {
            Ok(_) => Ok(stream),
            Err(error) => {
                let _ = self.release(stream);
                Err(error)
            },
        }
    }

    /// Opens a new substream.
    ///
    /// Returns an error if the session has been shut down, by this side or by a
    /// `GoAway` of the peer, or if the underlying connection has already been
    /// torn down.
    pub fn open_stream(&mut self) -> (result: Result<Stream, Error>)
        requires
            old(self).wf(),
        ensures
            final(self).wf(),
            final(self).keeps(*old(self)),
            if old(self)@.closed {
                &&& result == Err::<Stream, Error>(Error::Closed)
                &&& final(self)@ == old(self)@
            } else {
                match result {
                    Ok(stream) => {
                        &&& stream@ == old(self)@.opening()
                        &&& final(self).owns(stream)
                        &&& final(self)@ == old(self)@.begin_open().send(
                            FrameView::open(stream@.id),
                        )
                    },
                    Err(error) => {
                        &&& error == Error::BrokenPipe
                        &&& final(self)@ == old(self)@.begin_open().send_late(
                            FrameView::open(old(self)@.opening().id),
                        ).release(old(self)@.opening())
                    },
                }
            },
    {
        let stream = match self.begin_open() {
            Ok(stream) => stream,
            Err(error) => {
                return Err(error);
            },
        };
        let sent = self.send_frame(Frame::open(stream.id()));
        self.finish_open(stream, sent)
    }

    /// Sends a `GoAway` frame to the peer and shuts the session down. The
    /// frame is handed over before the shutdown, so that the peer is told
    /// before the transport is closed.
    pub fn goaway(&mut self, reason: u32) -> (teardown: Teardown<W>)
        requires
            old(self).wf(),
        ensures
            final(self).wf(),
            final(self).keeps(*old(self)),
            if old(self)@.closed {
                final(self)@ == old(self)@.shutdown()
            } else {
                ||| final(self)@ == old(self)@.send(FrameView::goaway(reason)).shutdown()
                ||| final(self)@ == old(self)@.send_late(FrameView::goaway(reason)).shutdown()
            },
            old(self)@.all_readers(teardown.read_wakers@),
            teardown.accept_waker == old(self)@.accept_waker,
            teardown.signal == !old(self)@.signalled,
    {
        // Best effort: without a task to drive the transport, the peer sees
        // the connection close anyway.
        let _ = self.send_frame(Frame::goaway(reason));
        self.shutdown()
    }

    /// Returns the reason code of a `GoAway` frame from the peer, if one came.
    pub fn goaway_reason(&self) -> (reason: Option<u32>)
        ensures
            reason == self@.goaway_reason,
    {
        self.goaway_reason
    }

    /// Returns a request for the next substream that the peer opens.
    pub fn accept(&self) -> (accept: Accept)
        ensures
            accept == (Accept {  }),
    {
        Accept {  }
    }

    /// Reads at most `limit` bytes off the substream of a handle.
    pub(crate) fn read(&mut self, stream: &Stream, limit: usize, waker: W) -> (result: Poll<Bytes>)
        requires
            old(self).wf(),
            old(self).owns(*stream),
        ensures
            final(self).wf(),
            final(self).keeps(*old(self)),
            final(self)@ == old(self)@.read(stream@.handle, limit as nat, waker),
            match result {
                Poll::Ready(bytes) => old(self)@.incoming[stream@.handle].read_result(limit as nat)
                    == Poll::Ready(bytes_view(bytes)),
                Poll::Pending => old(self)@.incoming[stream@.handle].read_result(limit as nat)
                    == Poll::<Seq<u8>>::Pending,
            },
    {
        let ghost before = *self;
        proof {
            self.arena.handles_are_places();
        }
        proof {
            self@.incoming[stream@.handle].read_leaves_no_empty_chunk(limit as nat, waker);
        }
        let result = self.arena.get_mut(stream.slot_index()).read(limit, waker);
        assert(self@.streams =~= before@.streams);
        result
    }

    /// Gives up a handle, and closes its substream on this side. Returns the
    /// waker of a reader that waits on the substream, and the incoming state of
    /// the handle.
    pub(crate) fn release(&mut self, stream: Stream) -> (left: (Option<W>, IncomingState<W>))
        requires
            old(self).wf(),
            old(self).owns(stream),
        ensures
            final(self).wf(),
            final(self).keeps_but(*old(self), stream@.handle),
            final(self)@ == old(self)@.release(stream@),
            left.0 == if old(self)@.attached(stream@.handle) {
                old(self)@.incoming[stream@.handle].read_waker
            } else {
                None
            },
            left.1@ == old(self)@.detach(stream@).incoming[stream@.handle],
    {
        broadcast use vstd::std_specs::hash::group_hash_axioms;

        proof {
            self.arena.handles_are_places();
        }
        let attached: bool = match self.streams.get(&stream.id().get()) {
            Some(slot) => *slot == stream.slot_index(),
            None => false,
        };
        assert(attached == self@.attached(stream@.handle));
        let waker = if attached {
            self.close_local_stream(stream.id())
        } else {
            None
        };
        let ghost closed = *self;
        proof {
            self.arena.handles_are_places();
            assert forall|id: u32| #[trigger] self.streams@.contains_key(id) implies self.streams@[id]
                != stream.slot() by {
                assert(closed@.streams.contains_key(id));
            }
        }
        let incoming = self.arena.remove(stream.slot_index());
        assert(self@.streams =~= closed@.streams);
        proof {
            closed.lent_slots_differ(stream);
        }
        (waker, incoming)
    }

    /// Returns whether anything more can arrive for a handle.
    pub(crate) fn is_closed(&self, stream: &Stream) -> (closed: bool)
        requires
            self.wf(),
            self.owns(*stream),
        ensures
            closed == self@.incoming[stream@.handle].closed,
    {
        self.arena.closed_at(stream.slot_index())
    }
}

/// A request for the next substream that the peer opens.
///
/// Only one may be pending at a time.
#[derive(Debug)]
pub struct Accept {}

impl Accept {
    /// Takes the substream that the peer opened first, waits for one, or fails
    /// because the session has been shut down.
    pub fn poll<W>(&mut self, mux: &mut Multiplexer<W>, waker: W) -> (result: Poll<
        Result<Stream, Error>,
    >)
        requires
            old(mux).wf(),
        ensures
            final(mux).wf(),
            final(mux).keeps(*old(mux)),
            if old(mux)@.new_streams.len() > 0 {
                &&& result matches Poll::Ready(Ok(stream)) && stream@ == old(mux)@.new_streams[0]
                    && final(mux).owns(stream)
                &&& final(mux)@ == (MultiplexerView {
                    new_streams: old(mux)@.new_streams.drop_first(),
                    ..old(mux)@
                })
            } else if old(mux)@.closed {
                &&& result == Poll::Ready(Err::<Stream, Error>(Error::Closed))
                &&& final(mux)@ == old(mux)@
            } else {
                &&& result == Poll::<Result<Stream, Error>>::Pending
                &&& final(mux)@ == (MultiplexerView { accept_waker: Some(waker), ..old(mux)@ })
            },
    {
        let ghost before = *mux;
        if let Some(stream) = mux.new_streams.pop_front() {
            assert(before@.new_streams[0] == stream@);
            assert(mux@.new_streams =~= before@.new_streams.drop_first());
            assert forall|i: int| 0 <= i < mux.new_streams@.len() implies mux.new_streams@[i]
                == before.new_streams@[i + 1] by {}
            return Poll::Ready(Ok(stream));
        }
        if mux.closed {
            return Poll::Ready(Err(Error::Closed));
        }
        mux.accept_waker = Some(waker);
        Poll::Pending
    }
}

} // verus!
