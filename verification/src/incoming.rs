//! What has arrived for one substream and has not been read yet.
use bytes::Bytes;
use std::collections::VecDeque;
use vstd::prelude::*;

use crate::buffer::{bytes_slice, bytes_view};
use crate::frame::StreamId;

verus! {

/// The outcome of an operation that may have to wait.
#[derive(Debug, PartialEq, Eq)]
pub enum Poll<T> {
    /// The operation is done.
    Ready(T),
    /// The operation waits; a waker has been registered.
    Pending,
}

/// The model of an [`IncomingState`].
pub struct IncomingView<W> {
    /// The substream that the chunks belong to.
    pub id: StreamId,
    /// The chunks that arrived and were not read, in order.
    pub chunks: Seq<Seq<u8>>,
    /// Whether anything more can arrive.
    pub closed: bool,
    /// Whom to wake when something arrives.
    pub read_waker: Option<W>,
}

impl<W> IncomingView<W> {
    /// A substream on which nothing has happened.
    pub open spec fn fresh(id: StreamId) -> Self {
        IncomingView { id, chunks: Seq::empty(), closed: false, read_waker: None }
    }

    /// The bytes that reads have still to deliver.
    pub open spec fn unread(self) -> Seq<u8> {
        self.chunks.flatten()
    }

    /// A payload arrives. An empty one leaves nothing to read. The reader, if
    /// one waits, is to be woken.
    pub open spec fn arrive(self, payload: Seq<u8>) -> Self {
        IncomingView {
            chunks: if payload.len() > 0 {
                self.chunks.push(payload)
            } else {
                self.chunks
            },
            read_waker: None,
            ..self
        }
    }

    /// Nothing more will arrive. The reader, if one waits, is to be woken.
    pub open spec fn close(self) -> Self {
        IncomingView { closed: true, read_waker: None, ..self }
    }

    /// What a read of at most `limit` bytes yields: as much as fits of the
    /// first chunk; nothing at the end of the substream; else it waits.
    pub open spec fn read_result(self, limit: nat) -> Poll<Seq<u8>> {
        if self.chunks.len() > 0 {
            let first = self.chunks[0];
            Poll::Ready(
                if limit < first.len() {
                    first.take(limit as int)
                } else {
                    first
                },
            )
        } else if self.closed {
            Poll::Ready(Seq::empty())
        } else {
            Poll::Pending
        }
    }

    /// What is left after such a read.
    pub open spec fn after_read(self, limit: nat, waker: W) -> Self {
        if self.chunks.len() > 0 {
            let first = self.chunks[0];
            let rest = self.chunks.drop_first();
            IncomingView {
                chunks: if limit < first.len() {
                    seq![first.skip(limit as int)] + rest
                } else {
                    rest
                },
                ..self
            }
        } else if self.closed {
            self
        } else {
            IncomingView { read_waker: Some(waker), ..self }
        }
    }
}

impl<W> IncomingView<W> {
    /// A read takes its bytes off the front of what is unread, and nothing
    /// else. It waits only where nothing is unread.
    pub proof fn read_in_order(self, limit: nat, waker: W)
        ensures
            match self.read_result(limit) {
                Poll::Ready(bytes) => self.unread() == bytes + self.after_read(
                    limit,
                    waker,
                ).unread() && bytes.len() <= limit,
                Poll::Pending => self.unread() == Seq::<u8>::empty() && self.after_read(
                    limit,
                    waker,
                ).unread() == Seq::<u8>::empty(),
            },
    {
        if self.chunks.len() > 0 {
            let first = self.chunks[0];
            let rest = self.chunks.drop_first();
            assert(self.chunks.first() == first);
            if limit < first.len() {
                let tail = seq![first.skip(limit as int)] + rest;
                assert(tail.first() == first.skip(limit as int));
                assert(tail.drop_first() =~= rest);
                assert(first =~= first.take(limit as int) + first.skip(limit as int));
                assert(self.unread() =~= first.take(limit as int) + tail.flatten());
            }
        }
    }

    /// What arrives goes behind what is unread.
    pub proof fn arrival_in_order(self, payload: Seq<u8>)
        ensures
            self.arrive(payload).unread() == self.unread() + payload,
    {
        if payload.len() > 0 {
            self.chunks.lemma_flatten_push(payload);
        } else {
            assert(self.unread() + payload =~= self.unread());
        }
    }

    /// No chunk is empty.
    pub open spec fn no_empty_chunk(self) -> bool {
        forall|i: int| 0 <= i < self.chunks.len() ==> (#[trigger] self.chunks[i]).len() > 0
    }

    /// A read leaves no empty chunk where there was none.
    pub proof fn read_leaves_no_empty_chunk(self, limit: nat, waker: W)
        requires
            self.no_empty_chunk(),
        ensures
            self.after_read(limit, waker).no_empty_chunk(),
    {
        if self.chunks.len() > 0 {
            let first = self.chunks[0];
            let next = self.after_read(limit, waker);
            assert forall|i: int| 0 <= i < next.chunks.len() implies (
            #[trigger] next.chunks[i]).len() > 0 by {
                if limit < first.len() {
                    if i > 0 {
                        assert(next.chunks[i] == self.chunks[i]);
                    }
                } else {
                    assert(next.chunks[i] == self.chunks[i + 1]);
                }
            }
        }
    }

    /// Where no chunk is empty, a read into a buffer with room yields nothing
    /// at the end of the substream and nowhere else; and it waits where nothing
    /// is unread and the end has not come, and nowhere else.
    pub proof fn empty_read_is_end(self, limit: nat)
        requires
            self.no_empty_chunk(),
            limit > 0,
        ensures
            self.read_result(limit) == Poll::Ready(Seq::<u8>::empty()) <==> self.closed
                && self.unread() == Seq::<u8>::empty(),
            self.read_result(limit) is Pending <==> !self.closed && self.unread() == Seq::<
                u8,
            >::empty(),
    {
        if self.chunks.len() > 0 {
            assert(self.chunks.first() == self.chunks[0]);
            assert(self.unread().len() >= self.chunks[0].len());
            if limit < self.chunks[0].len() {
                assert(self.chunks[0].take(limit as int).len() == limit);
            }
        }
    }

    /// What is read with buffers of `limit` bytes until nothing comes any
    /// more.
    pub open spec fn read_to_end(self, limit: nat, waker: W) -> Seq<u8>
        decreases self.unread().len(),
    {
        match self.read_result(limit) {
            Poll::Ready(bytes) => if bytes.len() == 0 {
                Seq::empty()
            } else {
                proof {
                    self.read_in_order(limit, waker);
                }
                bytes + self.after_read(limit, waker).read_to_end(limit, waker)
            },
            Poll::Pending => Seq::empty(),
        }
    }

    /// Reading a closed substream to its end yields everything that arrived,
    /// in order, where no chunk is empty.
    pub proof fn read_to_end_is_unread(self, limit: nat, waker: W)
        requires
            self.closed,
            self.no_empty_chunk(),
            limit > 0,
        ensures
            self.read_to_end(limit, waker) == self.unread(),
        decreases self.unread().len(),
    {
        self.read_in_order(limit, waker);
        self.empty_read_is_end(limit);
        if self.chunks.len() > 0 {
            let next = self.after_read(limit, waker);
            self.read_leaves_no_empty_chunk(limit, waker);
            next.read_to_end_is_unread(limit, waker);
        }
    }
}

/// What has arrived for one substream and has not been read yet. `W` is
/// whatever wakes a reader that waits.
pub struct IncomingState<W> {
    id: StreamId,
    data: VecDeque<Bytes>,
    closed: bool,
    read_waker: Option<W>,
}

impl<W> View for IncomingState<W> {
    type V = IncomingView<W>;

    closed spec fn view(&self) -> IncomingView<W> {
        IncomingView {
            id: self.id,
            chunks: self.data@.map_values(|b: Bytes| bytes_view(b)),
            closed: self.closed,
            read_waker: self.read_waker,
        }
    }
}

impl<W> IncomingState<W> {
    /// The state of a substream on which nothing has happened.
    pub fn new(id: StreamId) -> (state: Self)
        ensures
            state@ == IncomingView::<W>::fresh(id),
    {
        let state = IncomingState { id, data: VecDeque::new(), closed: false, read_waker: None };
        assert(state@.chunks =~= Seq::empty());
        state
    }

    /// Returns the substream that this state belongs to.
    pub fn id(&self) -> (id: StreamId)
        ensures
            id == self@.id,
    {
        self.id
    }

    /// Returns whether anything more can arrive.
    pub fn is_closed(&self) -> (closed: bool)
        ensures
            closed == self@.closed,
    {
        self.closed
    }

    /// Appends a payload, and returns the waker of a reader that waits.
    pub fn arrive(&mut self, payload: Bytes) -> (waker: Option<W>)
        ensures
            final(self)@ == old(self)@.arrive(bytes_view(payload)),
            waker == old(self)@.read_waker,
    {
        if bytes_slice(&payload).len() > 0 {
            self.data.push_back(payload);
        }
        let waker = self.read_waker.take();
        assert(self@.chunks =~= old(self)@.arrive(bytes_view(payload)).chunks);
        waker
    }

    /// Marks the substream as closed, and returns the waker of a reader that
    /// waits.
    pub fn close(&mut self) -> (waker: Option<W>)
        ensures
            final(self)@ == old(self)@.close(),
            waker == old(self)@.read_waker,
    {
        self.closed = true;
        self.read_waker.take()
    }

    /// Reads at most `limit` bytes.
    pub fn read(&mut self, limit: usize, waker: W) -> (result: Poll<Bytes>)
        ensures
            match result {
                Poll::Ready(bytes) => old(self)@.read_result(limit as nat) == Poll::Ready(
                    bytes_view(bytes),
                ),
                Poll::Pending => old(self)@.read_result(limit as nat) == Poll::<Seq<u8>>::Pending,
            },
            final(self)@ == old(self)@.after_read(limit as nat, waker),
    {
        let ghost before = self@;
        if let Some(mut chunk) = self.data.pop_front() {
            let ghost first = bytes_view(chunk);
            assert(first == before.chunks[0]);
            let length: usize = bytes_slice(&chunk).len();
            if limit < length {
                // The unread tail goes back to the front; nothing is copied.
                let head = chunk.split_to(limit);
                self.data.push_front(chunk);
                assert(self@.chunks =~= seq![first.skip(limit as int)]
                    + before.chunks.drop_first());
                return Poll::Ready(head);
            }
            assert(self@.chunks =~= before.chunks.drop_first());
            return Poll::Ready(chunk);
        }
        if self.closed {
            return Poll::Ready(Bytes::new());
        }
        self.read_waker = Some(waker);
        Poll::Pending
    }
}

} // verus!
