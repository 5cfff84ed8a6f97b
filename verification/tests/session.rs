//! Sessions, end to end: two sides, each with the task that drives its end of
//! an in-memory transport.

use bytes::{Buf, Bytes, BytesMut};
use peaplex::{
    Drive, Error, ErrorKind, Event, Flag, Frame, FrameCodec, Multiplexer, Phase, Poll, Side, Stream,
    StreamId, Teardown, MAX_FRAME_PAYLOAD,
};
use tokio::sync::mpsc::UnboundedReceiver;

/// One direction of a transport that holds a limited number of bytes.
struct Pipe {
    bytes: BytesMut,
    capacity: usize,
    closed: bool,
}

impl Pipe {
    fn new(capacity: usize) -> Pipe {
        Pipe { bytes: BytesMut::new(), capacity, closed: false }
    }

    fn room(&self) -> usize {
        self.capacity - self.bytes.len()
    }
}

/// One side of a connection. Wakers are numbers.
struct Node {
    mux: Multiplexer<u32>,
    rx: UnboundedReceiver<Bytes>,
    drive: Drive,
    signalled: bool,
    woken: Vec<u32>,
}

impl Node {
    fn new(side: Side) -> Node {
        let (mux, rx) = Multiplexer::new(side);
        Node { mux, rx, drive: Drive::new(), signalled: false, woken: Vec::new() }
    }

    fn tear_down(&mut self, teardown: Teardown<u32>) {
        self.woken.extend(teardown.read_wakers);
        self.woken.extend(teardown.accept_waker);
        self.signalled |= teardown.signal;
    }

    fn shutdown(&mut self) {
        let teardown = self.mux.shutdown();
        self.tear_down(teardown);
    }

    fn goaway(&mut self, reason: u32) {
        let teardown = self.mux.goaway(reason);
        self.tear_down(teardown);
    }

    fn step(&mut self, event: Event) {
        let woken = self.drive.step(&mut self.mux, event);
        self.woken.extend(woken);
    }

    fn write(&mut self, out: &mut Pipe) -> bool {
        if out.closed {
            self.step(Event::Written(None));
            return true;
        }
        let n = out.room().min(self.drive.write_buf.len());
        if n == 0 {
            return false;
        }
        out.bytes.extend_from_slice(&self.drive.write_buf[..n]);
        self.step(Event::Written(Some(n)));
        true
    }

    /// Takes one turn, if there is anything to do.
    fn turn(&mut self, out: &mut Pipe, inp: &mut Pipe) -> bool {
        match self.drive.phase {
            Phase::Running => {
                if self.signalled {
                    self.step(Event::Shutdown);
                    return true;
                }
                if self.drive.has_output() && self.write(out) {
                    return true;
                }
                if let Ok(bytes) = self.rx.try_recv() {
                    self.step(Event::Outgoing(Some(bytes)));
                    return true;
                }
                if !inp.bytes.is_empty() {
                    let n = inp.bytes.len();
                    self.drive.read_buf.extend_from_slice(&inp.bytes);
                    inp.bytes.clear();
                    self.step(Event::Received(Some(n)));
                    return true;
                }
                if inp.closed {
                    self.step(Event::Received(Some(0)));
                    return true;
                }
                false
            }
            Phase::Draining => {
                let next = self.rx.try_recv().ok();
                self.step(Event::Outgoing(next));
                true
            }
            Phase::Flushing => self.write(out),
            Phase::Stopped => {
                // The task is gone, and with it the transport.
                self.rx.close();
                let news = !out.closed || !inp.closed;
                out.closed = true;
                inp.closed = true;
                news
            }
        }
    }

    fn open(&mut self) -> Stream {
        self.mux.open_stream().unwrap()
    }

    fn accept(&mut self) -> Stream {
        match self.mux.accept().poll(&mut self.mux, 0) {
            Poll::Ready(Ok(stream)) => stream,
            _ => panic!("nothing to accept"),
        }
    }

    fn write_all(&mut self, stream: &Stream, bytes: &[u8]) -> Result<(), Error> {
        match stream.poll_write(&mut self.mux, bytes) {
            Poll::Ready(Ok(n)) => {
                assert_eq!(n, bytes.len());
                Ok(())
            }
            Poll::Ready(Err(error)) => Err(error),
            Poll::Pending => panic!("a write never waits"),
        }
    }

    /// Everything up to the end of the substream; `None` if the end is not in
    /// sight.
    fn read_to_end(&mut self, stream: &Stream, limit: usize) -> Option<Vec<u8>> {
        let mut all = Vec::new();
        loop {
            match stream.poll_read(&mut self.mux, limit, 0) {
                Poll::Ready(bytes) if bytes.is_empty() => return Some(all),
                Poll::Ready(bytes) => all.extend_from_slice(&bytes),
                Poll::Pending => return None,
            }
        }
    }

    /// The frames that are queued for the peer.
    fn queued(&mut self) -> Vec<Frame> {
        let mut frames = Vec::new();
        while let Ok(bytes) = self.rx.try_recv() {
            let mut buf = BytesMut::from(&bytes[..]);
            frames.push(FrameCodec.decode(&mut buf).unwrap().unwrap());
            assert!(buf.is_empty());
        }
        frames
    }
}

struct Pair {
    a: Node,
    b: Node,
    ab: Pipe,
    ba: Pipe,
}

impl Pair {
    fn new(capacity: usize) -> Pair {
        Pair {
            a: Node::new(Side::Initiator),
            b: Node::new(Side::Responder),
            ab: Pipe::new(capacity),
            ba: Pipe::new(capacity),
        }
    }

    /// Lets both tasks run until neither has anything to do.
    fn settle(&mut self) {
        loop {
            let a = self.a.turn(&mut self.ab, &mut self.ba);
            let b = self.b.turn(&mut self.ba, &mut self.ab);
            if !a && !b {
                return;
            }
        }
    }
}

fn small_pair() -> Pair {
    Pair::new(64 * 1024)
}

#[test]
fn basic_roundtrip() {
    let mut p = small_pair();
    let s = p.a.open();
    let payload = b"hello, peaplex!";
    p.a.write_all(&s, payload).unwrap();
    s.drop(&mut p.a.mux);
    p.settle();

    let s = p.b.accept();
    let got = p.b.read_to_end(&s, 4096).expect("reader timed out");
    assert_eq!(got, payload);
}

#[test]
fn bidirectional_streams() {
    let mut p = small_pair();

    // a -> b
    let s_ab = p.a.open();
    p.a.write_all(&s_ab, b"from a to b").unwrap();
    s_ab.drop(&mut p.a.mux);
    p.settle();
    let s = p.b.accept();
    assert_eq!(p.b.read_to_end(&s, 4096).unwrap(), b"from a to b");

    // b -> a
    let s_ba = p.b.open();
    p.b.write_all(&s_ba, b"from b to a").unwrap();
    s_ba.drop(&mut p.b.mux);
    p.settle();
    let s = p.a.accept();
    assert_eq!(p.a.read_to_end(&s, 4096).unwrap(), b"from b to a");
}

#[test]
fn both_directions_of_one_substream() {
    let mut p = small_pair();
    let near = p.a.open();
    p.a.write_all(&near, b"question").unwrap();
    p.settle();
    let mut far = p.b.accept();
    assert_eq!(far.id(), near.id());
    assert_eq!(far.poll_read(&mut p.b.mux, 100, 1), Poll::Ready(Bytes::from_static(b"question")));
    p.b.write_all(&far, b"answer").unwrap();
    assert_eq!(far.poll_shutdown(&mut p.b.mux), Poll::Ready(Ok(())));
    p.settle();
    assert_eq!(p.a.read_to_end(&near, 3).unwrap(), b"answer");
}

#[test]
fn many_concurrent_streams() {
    let mut p = small_pair();

    const N: usize = 32;
    let mut open = Vec::new();
    for _ in 0..N {
        open.push(p.a.open());
    }
    for (i, s) in open.iter().enumerate() {
        let payload = format!("stream #{i}");
        p.a.write_all(s, payload.as_bytes()).unwrap();
    }
    for s in open.iter_mut().rev() {
        assert_eq!(s.poll_shutdown(&mut p.a.mux), Poll::Ready(Ok(())));
    }
    p.settle();

    let mut got = Vec::with_capacity(N);
    for _ in 0..N {
        let s = p.b.accept();
        got.push(p.b.read_to_end(&s, 4096).unwrap());
    }
    // Substreams are accepted in the order in which they were opened.
    let expected: Vec<Vec<u8>> = (0..N).map(|i| format!("stream #{i}").into_bytes()).collect();
    assert_eq!(got, expected);
}

#[test]
fn large_payload_roundtrip() {
    let mut p = small_pair();

    let payload: Vec<u8> = (0..(4 * 1024 * 1024)).map(|i| (i % 251) as u8).collect();
    let s = p.a.open();
    for chunk in payload.chunks(64 * 1024) {
        p.a.write_all(&s, chunk).unwrap();
    }
    s.drop(&mut p.a.mux);
    p.settle();

    let s = p.b.accept();
    let received = p.b.read_to_end(&s, 1000).unwrap();
    assert_eq!(received.len(), payload.len());
    assert_eq!(received, payload);
}

#[test]
fn shutdown_closes_streams() {
    let mut p = small_pair();
    let s = p.a.open();
    p.a.write_all(&s, b"before shutdown").unwrap();
    p.settle();
    p.a.shutdown();

    // Further writes must fail.
    let err = p.a.write_all(&s, b"after shutdown").unwrap_err();
    assert_eq!(err.kind(), ErrorKind::BrokenPipe);

    p.settle();
    let s = p.b.accept();
    let got = p.b.read_to_end(&s, 4096).unwrap();
    assert_eq!(got, b"before shutdown");
    assert_eq!(p.a.drive.phase, Phase::Stopped);
    assert_eq!(p.b.drive.phase, Phase::Stopped);
}

#[test]
fn stream_id_layout() {
    // Initiator mints odd IDs, Responder mints even IDs.
    let mut p = small_pair();
    let s1 = p.a.open();
    let s2 = p.a.open();
    let s3 = p.b.open();
    let s4 = p.b.open();
    assert_eq!(s1.id(), StreamId(1));
    assert_eq!(s2.id(), StreamId(3));
    assert_eq!(s3.id(), StreamId(2));
    assert_eq!(s4.id(), StreamId(4));
    assert!(s1.id().is_initiator());
    assert!(s3.id().is_responder());
}

#[test]
fn dropped_stream_sends_close() {
    // If a stream is dropped without ever being written to or read from,
    // the peer's read should see EOF (the Close frame is sent on drop).
    let mut p = small_pair();
    p.a.open().drop(&mut p.a.mux);
    p.settle();
    let s = p.b.accept();
    let got = p.b.read_to_end(&s, 4096).expect("reader timed out");
    assert!(got.is_empty(), "expected EOF, got {} bytes", got.len());
}

#[test]
fn goaway_marks_all_streams_closed() {
    let mut p = small_pair();
    let s1 = p.a.open();
    let s2 = p.a.open();
    p.a.write_all(&s1, b"hi").unwrap();
    p.a.write_all(&s2, b"hello").unwrap();
    p.settle();
    let r1 = p.b.accept();
    let r2 = p.b.accept();
    p.a.goaway(0);
    p.settle();
    assert_eq!(p.b.read_to_end(&r1, 4096).unwrap(), b"hi");
    assert_eq!(p.b.read_to_end(&r2, 4096).unwrap(), b"hello");
    assert_eq!(p.b.mux.goaway_reason(), Some(0));
}

#[test]
fn goaway_frame_is_actually_delivered() {
    // A goes away; the GoAway frame is on the wire before the end of it.
    let mut a = Node::new(Side::Initiator);
    let mut out = Pipe::new(64 * 1024);
    let mut inp = Pipe::new(64 * 1024);
    assert!(!a.turn(&mut out, &mut inp));
    a.goaway(42);
    while a.turn(&mut out, &mut inp) {}
    assert!(out.closed);

    let mut buf = out.bytes;
    assert!(!buf.is_empty(), "expected at least one frame from a, got EOF");
    let frame = FrameCodec.decode(&mut buf).unwrap().unwrap();
    assert_eq!(frame.flag, Flag::GoAway);
    assert_eq!(frame.payload.len(), 4);
    let reason = u32::from_be_bytes(frame.payload[..].try_into().unwrap());
    assert_eq!(reason, 42);
    assert!(buf.is_empty());
}

#[test]
fn goaway_reason_is_readable_by_peer() {
    // When A goes away with a reason, B can recover that reason via
    // `goaway_reason()` once the frame has been dispatched.
    let mut p = small_pair();
    assert_eq!(p.b.mux.goaway_reason(), None);
    p.a.goaway(7);
    p.settle();
    assert_eq!(p.b.mux.goaway_reason(), Some(7));

    // A initiated the shutdown locally, so it has no inbound GoAway reason.
    assert_eq!(p.a.mux.goaway_reason(), None);
}

#[test]
fn frames_queued_before_a_shutdown_are_flushed_through_a_small_pipe() {
    let mut p = Pair::new(7);
    let s = p.a.open();
    p.a.write_all(&s, &[5u8; 1000]).unwrap();
    p.a.goaway(0x01020304);
    p.settle();
    assert_eq!(p.b.mux.goaway_reason(), Some(0x01020304));
    let s = p.b.accept();
    assert_eq!(p.b.read_to_end(&s, 64).unwrap(), vec![5u8; 1000]);
}

#[test]
fn a_failed_write_ends_the_session() {
    let mut a = Node::new(Side::Initiator);
    let mut s = a.open();
    assert_eq!(s.poll_read(&mut a.mux, 10, 77), Poll::Pending);
    let bytes = a.rx.try_recv().unwrap();
    a.step(Event::Outgoing(Some(bytes)));
    assert!(a.drive.has_output());
    a.step(Event::Written(Some(0)));
    assert_eq!(a.drive.phase, Phase::Stopped);
    assert_eq!(a.woken, [77]);
    assert_eq!(s.poll_read(&mut a.mux, 10, 78), Poll::Ready(Bytes::new()));
    assert!(matches!(a.mux.open_stream(), Err(Error::Closed)));
    assert_eq!(s.poll_shutdown(&mut a.mux), Poll::Ready(Ok(())));
}

#[test]
fn partial_writes_leave_the_rest() {
    let mut a = Node::new(Side::Initiator);
    a.step(Event::Outgoing(Some(Bytes::from_static(b"abcdef"))));
    a.step(Event::Written(Some(2)));
    a.step(Event::Outgoing(Some(Bytes::from_static(b"ghi"))));
    assert_eq!(&a.drive.write_buf[..], b"cdefghi");
    a.step(Event::Written(Some(7)));
    assert!(!a.drive.has_output());
    assert_eq!(a.drive.phase, Phase::Running);
}

#[test]
fn without_senders_the_task_stops() {
    let mut a = Node::new(Side::Initiator);
    a.step(Event::Outgoing(None));
    assert_eq!(a.drive.phase, Phase::Stopped);
    assert!(matches!(a.mux.open_stream(), Err(Error::Closed)));
}

#[test]
fn draining_collects_and_then_writes() {
    let mut a = Node::new(Side::Initiator);
    a.step(Event::Outgoing(Some(Bytes::from_static(b"12"))));
    a.step(Event::Shutdown);
    assert_eq!(a.drive.phase, Phase::Draining);
    a.step(Event::Outgoing(Some(Bytes::from_static(b"34"))));
    a.step(Event::Outgoing(None));
    assert_eq!(a.drive.phase, Phase::Flushing);
    a.step(Event::Written(Some(3)));
    assert_eq!(a.drive.phase, Phase::Flushing);
    a.step(Event::Written(Some(1)));
    assert_eq!(a.drive.phase, Phase::Stopped);

    // With nothing to write, there is nothing to wait for.
    let mut b = Node::new(Side::Responder);
    b.step(Event::Shutdown);
    b.step(Event::Outgoing(None));
    assert_eq!(b.drive.phase, Phase::Stopped);
}

#[test]
fn garbage_on_the_wire_wakes_readers() {
    let mut a = Node::new(Side::Initiator);
    // Park a reader on an open stream.
    let s = a.open();
    assert_eq!(s.poll_read(&mut a.mux, 100, 11), Poll::Pending);
    assert!(matches!(a.mux.accept().poll(&mut a.mux, 12), Poll::Pending));

    // A frame with an unknown flag byte, which the decoder rejects.
    let garbage = [0xFF, 0, 0, 0, 1, 0, 0, 0, 0];
    a.drive.read_buf.extend_from_slice(&garbage);
    a.step(Event::Received(Some(garbage.len())));
    assert_eq!(a.drive.phase, Phase::Stopped);
    assert_eq!(a.woken, [11, 12]);
    let n = a.read_to_end(&s, 100).expect("reader hung after malformed frame").len();
    assert_eq!(n, 0, "expected EOF after the session was torn down");
    assert!(matches!(a.mux.accept().poll(&mut a.mux, 13), Poll::Ready(Err(Error::Closed))));
}

#[test]
fn frames_before_garbage_still_count() {
    let mut a = Node::new(Side::Initiator);
    let mut buf = BytesMut::new();
    FrameCodec.encode(Frame::open(StreamId(2)), &mut buf).unwrap();
    FrameCodec.encode(Frame::data(StreamId(2), Bytes::from_static(b"ok")), &mut buf).unwrap();
    buf.extend_from_slice(&[0u8; 9]);
    a.drive.read_buf.extend_from_slice(&buf);
    a.step(Event::Received(Some(buf.len())));
    assert_eq!(a.drive.phase, Phase::Stopped);
    let s = a.accept();
    assert_eq!(s.id(), StreamId(2));
    assert_eq!(a.read_to_end(&s, 1).unwrap(), b"ok");
}

#[test]
fn end_of_the_transport_is_the_end_of_the_session() {
    for event in [Event::Received(None), Event::Received(Some(0)), Event::Written(None)] {
        let mut a = Node::new(Side::Initiator);
        a.step(Event::Outgoing(Some(Bytes::from_static(b"x"))));
        a.step(event);
        assert_eq!(a.drive.phase, Phase::Stopped);
        assert!(matches!(a.mux.open_stream(), Err(Error::Closed)));
        assert_eq!(a.mux.goaway_reason(), None);
    }
}

#[test]
fn reads_take_from_the_front_chunk() {
    let (mut mux, _rx) = Multiplexer::<u32>::new(Side::Responder);
    mux.dispatch(Frame::open(StreamId(1)));
    mux.dispatch(Frame::data(StreamId(1), Bytes::from_static(b"abcde")));
    mux.dispatch(Frame::data(StreamId(1), Bytes::from_static(b"fg")));
    let s = match mux.accept().poll(&mut mux, 0) {
        Poll::Ready(Ok(s)) => s,
        _ => panic!("nothing to accept"),
    };
    assert_eq!(s.poll_read(&mut mux, 2, 0), Poll::Ready(Bytes::from_static(b"ab")));
    assert_eq!(s.poll_read(&mut mux, 0, 0), Poll::Ready(Bytes::new()));
    assert_eq!(s.poll_read(&mut mux, 3, 0), Poll::Ready(Bytes::from_static(b"cde")));
    assert_eq!(s.poll_read(&mut mux, 100, 0), Poll::Ready(Bytes::from_static(b"fg")));
    assert_eq!(s.poll_read(&mut mux, 100, 0), Poll::Pending);
    mux.dispatch(Frame::close(StreamId(1)));
    assert_eq!(s.poll_read(&mut mux, 100, 0), Poll::Ready(Bytes::new()));
}

#[test]
fn an_empty_data_frame_leaves_nothing_to_read() {
    let mut p = small_pair();
    let s = p.a.open();
    p.a.write_all(&s, b"").unwrap();
    p.settle();
    let r = p.b.accept();
    assert_eq!(r.poll_read(&mut p.b.mux, 10, 1), Poll::Pending);
    p.a.write_all(&s, b"mo").unwrap();
    p.a.write_all(&s, b"").unwrap();
    p.a.write_all(&s, b"re").unwrap();
    s.drop(&mut p.a.mux);
    p.settle();
    assert_eq!(p.b.read_to_end(&r, 10).unwrap(), b"more");
}

#[test]
fn arrivals_wake_the_last_reader_once() {
    let mut a = Node::new(Side::Initiator);
    let s = a.open();
    assert_eq!(s.poll_read(&mut a.mux, 10, 1), Poll::Pending);
    assert_eq!(s.poll_read(&mut a.mux, 10, 2), Poll::Pending);
    let data = Frame::data(StreamId(1), Bytes::from_static(b"x"));
    assert_eq!(a.mux.dispatch(data.clone()), (vec![2], None));
    assert_eq!(a.mux.dispatch(data), (vec![], None));
    assert_eq!(a.mux.dispatch(Frame::close(StreamId(1))), (vec![], None));
}

#[test]
fn closing_wakes_a_reader() {
    let mut a = Node::new(Side::Initiator);
    let s = a.open();
    assert_eq!(s.poll_read(&mut a.mux, 10, 5), Poll::Pending);
    assert_eq!(a.mux.dispatch(Frame::close(StreamId(1))), (vec![5], None));
    assert_eq!(s.poll_read(&mut a.mux, 10, 6), Poll::Ready(Bytes::new()));

    let t = a.open();
    assert_eq!(t.poll_read(&mut a.mux, 10, 7), Poll::Pending);
    assert_eq!(a.mux.close_local_stream(t.id()), Some(7));
    assert_eq!(a.mux.close_local_stream(t.id()), None);
    assert_eq!(t.poll_read(&mut a.mux, 10, 8), Poll::Ready(Bytes::new()));
}

#[test]
fn opening_wakes_the_accepter_once() {
    let (mut mux, _rx) = Multiplexer::<u32>::new(Side::Responder);
    assert!(matches!(mux.accept().poll(&mut mux, 4), Poll::Pending));
    assert_eq!(mux.dispatch(Frame::open(StreamId(1))), (vec![], Some(4)));
    assert_eq!(mux.dispatch(Frame::open(StreamId(3))), (vec![], None));
    for id in [1, 3] {
        match mux.accept().poll(&mut mux, 5) {
            Poll::Ready(Ok(s)) => assert_eq!(s.id(), StreamId(id)),
            _ => panic!("nothing to accept"),
        }
    }
}

#[test]
fn frames_for_no_substream_are_ignored() {
    let (mut mux, _rx) = Multiplexer::<u32>::new(Side::Responder);
    assert_eq!(mux.dispatch(Frame::data(StreamId(9), Bytes::from_static(b"?"))), (vec![], None));
    assert_eq!(mux.dispatch(Frame::close(StreamId(9))), (vec![], None));
    assert!(matches!(mux.accept().poll(&mut mux, 0), Poll::Pending));
}

#[test]
fn data_after_close_is_dropped() {
    let mut a = Node::new(Side::Initiator);
    let s = a.open();
    a.mux.dispatch(Frame::data(StreamId(1), Bytes::from_static(b"in time")));
    a.mux.dispatch(Frame::close(StreamId(1)));
    a.mux.dispatch(Frame::data(StreamId(1), Bytes::from_static(b"too late")));
    assert_eq!(a.read_to_end(&s, 100).unwrap(), b"in time");
}

#[test]
fn a_second_open_starts_afresh() {
    let (mut mux, _rx) = Multiplexer::<u32>::new(Side::Responder);
    mux.dispatch(Frame::open(StreamId(1)));
    mux.dispatch(Frame::data(StreamId(1), Bytes::from_static(b"old")));
    mux.dispatch(Frame::open(StreamId(1)));
    mux.dispatch(Frame::data(StreamId(1), Bytes::from_static(b"new")));
    let mut streams = Vec::new();
    for _ in 0..2 {
        match mux.accept().poll(&mut mux, 0) {
            Poll::Ready(Ok(s)) => streams.push(s),
            _ => panic!("nothing to accept"),
        }
    }
    assert_eq!(streams[0].poll_read(&mut mux, 9, 0), Poll::Ready(Bytes::from_static(b"old")));
    assert_eq!(streams[0].poll_read(&mut mux, 9, 7), Poll::Pending);
    assert_eq!(streams[1].poll_read(&mut mux, 9, 0), Poll::Ready(Bytes::from_static(b"new")));
    assert_eq!(streams[1].poll_read(&mut mux, 9, 8), Poll::Pending);

    // A shutdown ends both of them.
    let mut readers = mux.shutdown().read_wakers;
    readers.sort();
    assert_eq!(readers, [7, 8]);
    for s in &streams {
        assert_eq!(s.poll_read(&mut mux, 9, 0), Poll::Ready(Bytes::new()));
    }
}

#[test]
fn dropping_a_replaced_handle_spares_the_newer_substream() {
    let mut b = Node::new(Side::Responder);
    b.mux.dispatch(Frame::open(StreamId(1)));
    b.mux.dispatch(Frame::open(StreamId(1)));
    let old = b.accept();
    let new = b.accept();
    let (waker, _) = old.drop(&mut b.mux);
    assert_eq!(waker, None);
    assert_eq!(new.poll_read(&mut b.mux, 9, 1), Poll::Pending);
    assert_eq!(
        b.mux.dispatch(Frame::data(StreamId(1), Bytes::from_static(b"x"))),
        (vec![1], None)
    );
    assert_eq!(new.poll_read(&mut b.mux, 9, 1), Poll::Ready(Bytes::from_static(b"x")));
}

#[test]
fn nothing_can_be_written_after_the_close_of_the_peer() {
    let mut p = small_pair();
    let s = p.a.open();
    p.settle();
    let r = p.b.accept();
    p.b.write_all(&r, b"last words").unwrap();
    r.drop(&mut p.b.mux);
    p.settle();
    assert_eq!(p.a.write_all(&s, b"too late"), Err(Error::BrokenPipe));
    let too_large = vec![0u8; MAX_FRAME_PAYLOAD as usize + 1];
    assert_eq!(p.a.write_all(&s, &too_large), Err(Error::WriteTooLarge));
    assert!(p.a.queued().is_empty());
    assert_eq!(p.a.read_to_end(&s, 4).unwrap(), b"last words");
    // Other substreams are not affected.
    let t = p.a.open();
    p.a.write_all(&t, b"fine").unwrap();
}

#[test]
fn goaway_payloads() {
    let goaway = |payload: &'static [u8]| Frame {
        flag: Flag::GoAway,
        stream_id: StreamId(0),
        payload: Bytes::from_static(payload),
    };
    let (mut mux, _rx) = Multiplexer::<u32>::new(Side::Responder);
    mux.dispatch(goaway(&[1, 2, 3]));
    assert_eq!(mux.goaway_reason(), None);
    mux.dispatch(goaway(&[1, 2, 3, 4, 5]));
    assert_eq!(mux.goaway_reason(), Some(0x01020304));
    mux.dispatch(goaway(&[]));
    assert_eq!(mux.goaway_reason(), Some(0x01020304));
}

#[test]
fn goaway_from_the_peer_wakes_every_reader() {
    let mut a = Node::new(Side::Initiator);
    let streams = [a.open(), a.open(), a.open()];
    for (i, s) in streams.iter().enumerate() {
        assert_eq!(s.poll_read(&mut a.mux, 1, 10 + i as u32), Poll::Pending);
    }
    assert!(matches!(a.mux.accept().poll(&mut a.mux, 20), Poll::Pending));
    let (mut readers, accepter) = a.mux.dispatch(Frame::goaway(1));
    readers.sort();
    assert_eq!(readers, [10, 11, 12]);
    assert_eq!(accepter, Some(20));
    for s in &streams {
        assert_eq!(s.poll_read(&mut a.mux, 1, 0), Poll::Ready(Bytes::new()));
    }
    assert!(matches!(a.mux.accept().poll(&mut a.mux, 21), Poll::Ready(Err(Error::Closed))));
}

#[test]
fn nothing_can_be_opened_or_sent_after_a_goaway_of_the_peer() {
    for payload in [&b""[..], &b"abc"[..], &b"abcd"[..]] {
        let mut a = Node::new(Side::Initiator);
        let s = a.open();
        a.queued();
        a.mux.dispatch(Frame {
            flag: Flag::GoAway,
            stream_id: StreamId(0),
            payload: Bytes::copy_from_slice(payload),
        });
        assert!(matches!(a.mux.open_stream(), Err(Error::Closed)));
        assert!(matches!(a.mux.begin_open(), Err(Error::Closed)));
        assert_eq!(a.write_all(&s, b"x"), Err(Error::BrokenPipe));
        assert_eq!(a.mux.send_frame(Frame::close(StreamId(1))), Err(Error::BrokenPipe));
        assert!(a.queued().is_empty());
        // The task still waits to be told to stop.
        assert!(a.mux.shutdown().signal);
    }
}

#[test]
fn shutting_down_twice_does_nothing_more() {
    let mut a = Node::new(Side::Initiator);
    let s = a.open();
    assert_eq!(s.poll_read(&mut a.mux, 1, 21), Poll::Pending);
    assert!(matches!(a.mux.accept().poll(&mut a.mux, 22), Poll::Pending));
    let first = a.mux.shutdown();
    assert_eq!(first.read_wakers, [21]);
    assert_eq!(first.accept_waker, Some(22));
    assert!(first.signal);
    let second = a.mux.shutdown();
    assert!(second.read_wakers.is_empty());
    assert_eq!(second.accept_waker, None);
    assert!(!second.signal);
    assert_eq!(a.mux.close_all(), (vec![], None));
}

#[test]
fn a_closed_session_refuses() {
    let mut a = Node::new(Side::Initiator);
    let s = a.open();
    a.shutdown();
    assert_eq!(a.queued(), [Frame::open(StreamId(1))]);
    assert!(matches!(a.mux.open_stream(), Err(Error::Closed)));
    assert_eq!(a.write_all(&s, b"x"), Err(Error::BrokenPipe));
    assert_eq!(a.mux.send_frame(Frame::goaway(1)), Err(Error::BrokenPipe));
    assert_eq!(a.mux.prepare_frame(Frame::goaway(1)), Err(Error::BrokenPipe));
    // A late `Open` is dropped.
    assert_eq!(a.mux.dispatch(Frame::open(StreamId(2))), (vec![], None));
    assert!(matches!(a.mux.accept().poll(&mut a.mux, 0), Poll::Ready(Err(Error::Closed))));
    s.drop(&mut a.mux);
    a.goaway(3);
    assert!(a.queued().is_empty());
}

#[test]
fn substreams_queued_before_a_shutdown_can_still_be_accepted() {
    let mut b = Node::new(Side::Responder);
    b.mux.dispatch(Frame::open(StreamId(1)));
    b.mux.dispatch(Frame::data(StreamId(1), Bytes::from_static(b"kept")));
    b.shutdown();
    let s = b.accept();
    assert_eq!(b.read_to_end(&s, 100).unwrap(), b"kept");
    assert!(matches!(b.mux.accept().poll(&mut b.mux, 0), Poll::Ready(Err(Error::Closed))));
}

#[test]
fn what_is_sent_is_what_was_asked_for() {
    let mut a = Node::new(Side::Initiator);
    let mut s = a.open();
    a.write_all(&s, b"one").unwrap();
    a.write_all(&s, b"").unwrap();
    assert_eq!(s.poll_flush(), Poll::Ready(Ok(())));
    assert_eq!(s.poll_shutdown(&mut a.mux), Poll::Ready(Ok(())));
    assert_eq!(a.write_all(&s, b"two"), Err(Error::BrokenPipe));
    assert_eq!(s.poll_shutdown(&mut a.mux), Poll::Ready(Ok(())));
    s.drop(&mut a.mux);
    a.goaway(9);
    assert_eq!(
        a.queued(),
        [
            Frame::open(StreamId(1)),
            Frame::data(StreamId(1), Bytes::from_static(b"one")),
            Frame::data(StreamId(1), Bytes::new()),
            Frame::close(StreamId(1)),
            Frame::goaway(9),
        ]
    );
}

#[test]
fn a_write_of_the_largest_size_passes_and_one_byte_more_does_not() {
    let mut a = Node::new(Side::Initiator);
    let s = a.open();
    let mut bytes = vec![3u8; MAX_FRAME_PAYLOAD as usize];
    a.write_all(&s, &bytes).unwrap();
    bytes.push(3);
    let error = a.write_all(&s, &bytes).unwrap_err();
    assert_eq!(error, Error::WriteTooLarge);
    assert_eq!(error.kind(), ErrorKind::InvalidInput);
    assert_eq!(a.queued().len(), 2);

    // A frame that has no encoding is not sent either.
    let frame = Frame::data(s.id(), Bytes::from(bytes));
    assert_eq!(a.mux.send_frame(frame.clone()), Err(Error::Unencodable));
    assert_eq!(a.mux.prepare_frame(frame), Err(Error::Unencodable));
    assert!(a.queued().is_empty());
}

#[test]
fn prepared_frames_are_the_wire_format() {
    let (mux, _rx) = Multiplexer::<u32>::new(Side::Initiator);
    assert_eq!(
        mux.prepare_frame(Frame::data(StreamId(1), Bytes::from_static(b"z"))),
        Ok(Bytes::from_static(&[2, 0, 0, 0, 1, 0, 0, 0, 1, b'z']))
    );
}

#[test]
fn without_a_task_nothing_can_be_opened_or_sent() {
    let mut a = Node::new(Side::Initiator);
    let s = a.open();
    a.rx.close();
    assert!(matches!(a.mux.open_stream(), Err(Error::BrokenPipe)));
    assert_eq!(a.write_all(&s, b"x"), Err(Error::BrokenPipe));
    // The failed attempt took up an ID and left nothing behind.
    assert_eq!(a.mux.dispatch(Frame::close(StreamId(3))), (vec![], None));
    let begun = a.mux.begin_open().unwrap();
    assert_eq!(begun.id(), StreamId(5));
    assert!(matches!(a.mux.finish_open(begun, Err(Error::BrokenPipe)), Err(Error::BrokenPipe)));
    let begun = a.mux.begin_open().unwrap();
    assert_eq!(begun.id(), StreamId(7));
    let kept = a.mux.finish_open(begun, Ok(())).unwrap();
    a.mux.dispatch(Frame::data(StreamId(7), Bytes::from_static(b"hear, hear")));
    assert_eq!(kept.poll_read(&mut a.mux, 4, 0), Poll::Ready(Bytes::from_static(b"hear")));
}

#[test]
fn dropped_substreams_hear_nothing() {
    let mut a = Node::new(Side::Initiator);
    let s = a.open();
    let t = a.open();
    s.drop(&mut a.mux);
    assert_eq!(
        a.mux.dispatch(Frame::data(StreamId(1), Bytes::from_static(b"lost"))),
        (vec![], None)
    );
    // A handle opened later does not inherit anything.
    let u = a.open();
    assert_eq!(u.poll_read(&mut a.mux, 9, 1), Poll::Pending);
    assert_eq!(t.poll_read(&mut a.mux, 9, 2), Poll::Pending);
    a.mux.dispatch(Frame::data(u.id(), Bytes::from_static(b"u")));
    a.mux.dispatch(Frame::data(t.id(), Bytes::from_static(b"t")));
    assert_eq!(u.poll_read(&mut a.mux, 9, 1), Poll::Ready(Bytes::from_static(b"u")));
    assert_eq!(t.poll_read(&mut a.mux, 9, 2), Poll::Ready(Bytes::from_static(b"t")));
}

#[test]
fn bytes_cut_anywhere_bring_the_same_frames() {
    let mut wire = BytesMut::new();
    FrameCodec.encode(Frame::open(StreamId(1)), &mut wire).unwrap();
    FrameCodec.encode(Frame::data(StreamId(1), Bytes::from_static(b"payload")), &mut wire).unwrap();
    FrameCodec.encode(Frame::close(StreamId(1)), &mut wire).unwrap();
    for cut in 0..=wire.len() {
        let mut b = Node::new(Side::Responder);
        let mut rest = wire.clone();
        let head = rest.split_to(cut);
        for part in [head, rest] {
            if part.has_remaining() {
                b.drive.read_buf.extend_from_slice(&part);
                b.step(Event::Received(Some(part.len())));
            }
        }
        assert_eq!(b.drive.phase, Phase::Running);
        let s = b.accept();
        assert_eq!(b.read_to_end(&s, 3).unwrap(), b"payload");
    }
}

#[test]
fn a_connection_cut_anywhere_delivers_a_prefix() {
    let mut wire = BytesMut::new();
    FrameCodec.encode(Frame::open(StreamId(1)), &mut wire).unwrap();
    FrameCodec.encode(Frame::data(StreamId(1), Bytes::from_static(b"pay")), &mut wire).unwrap();
    FrameCodec.encode(Frame::data(StreamId(1), Bytes::from_static(b"load")), &mut wire).unwrap();
    FrameCodec.encode(Frame::close(StreamId(1)), &mut wire).unwrap();
    for cut in 9..=wire.len() {
        let mut b = Node::new(Side::Responder);
        b.drive.read_buf.extend_from_slice(&wire[..cut]);
        b.step(Event::Received(Some(cut)));
        b.step(Event::Received(None));
        let s = b.accept();
        let got = b.read_to_end(&s, 100).unwrap();
        let expected: &[u8] = match cut {
            9..=20 => b"",
            21..=33 => b"pay",
            _ => b"payload",
        };
        assert_eq!(got, expected);
    }
}

#[test]
fn dropping_hands_back_what_was_kept() {
    let mut a = Node::new(Side::Initiator);
    let mut s = a.open();
    let t = a.open();
    assert_eq!(s.poll_read(&mut a.mux, 9, 31), Poll::Pending);
    assert!(!s.outgoing_closed());
    assert_eq!(s.poll_shutdown(&mut a.mux), Poll::Ready(Ok(())));
    assert!(s.outgoing_closed());
    let (waker, mut kept) = s.drop(&mut a.mux);
    assert_eq!(waker, Some(31));
    assert_eq!(kept.id(), StreamId(1));
    assert_eq!(kept.read(9, 32), Poll::Ready(Bytes::new()));

    a.mux.dispatch(Frame::data(StreamId(3), Bytes::from_static(b"unread")));
    let (waker, mut kept) = t.drop(&mut a.mux);
    assert_eq!(waker, None);
    assert_eq!(kept.read(9, 33), Poll::Ready(Bytes::from_static(b"unread")));
}

#[test]
fn unread_data_survives_a_shutdown() {
    let mut a = Node::new(Side::Initiator);
    let s = a.open();
    a.mux.dispatch(Frame::data(StreamId(1), Bytes::from_static(b"in time")));
    a.shutdown();
    a.mux.dispatch(Frame::data(StreamId(1), Bytes::from_static(b"too late")));
    assert_eq!(a.read_to_end(&s, 2).unwrap(), b"in time");
}

#[test]
fn frames_on_one_substream_leave_the_others_alone() {
    let mut a = Node::new(Side::Initiator);
    let s = a.open();
    let t = a.open();
    assert_eq!(t.poll_read(&mut a.mux, 9, 1), Poll::Pending);
    assert_eq!(
        a.mux.dispatch(Frame::data(s.id(), Bytes::from_static(b"mine"))),
        (vec![], None)
    );
    assert_eq!(a.mux.dispatch(Frame::close(s.id())), (vec![], None));
    assert_eq!(t.poll_read(&mut a.mux, 9, 2), Poll::Pending);
    assert_eq!(a.read_to_end(&s, 9).unwrap(), b"mine");
}

#[test]
fn a_substream_ends_while_others_are_on_their_way() {
    // The `Close` arrives together with part of another substream's frame, and
    // then the connection is cut.
    let mut wire = BytesMut::new();
    FrameCodec.encode(Frame::open(StreamId(1)), &mut wire).unwrap();
    FrameCodec.encode(Frame::open(StreamId(3)), &mut wire).unwrap();
    FrameCodec.encode(Frame::data(StreamId(1), Bytes::from_static(b"whole")), &mut wire).unwrap();
    FrameCodec.encode(Frame::close(StreamId(1)), &mut wire).unwrap();
    FrameCodec.encode(Frame::data(StreamId(3), Bytes::from_static(b"partial")), &mut wire).unwrap();
    let mut b = Node::new(Side::Responder);
    let cut = wire.len() - 3;
    b.drive.read_buf.extend_from_slice(&wire[..cut]);
    b.step(Event::Received(Some(cut)));
    let first = b.accept();
    let second = b.accept();
    assert_eq!(b.read_to_end(&first, 2).unwrap(), b"whole");
    assert_eq!(second.poll_read(&mut b.mux, 9, 1), Poll::Pending);
    b.step(Event::Received(None));
    assert_eq!(b.read_to_end(&second, 9).unwrap(), b"");
}

#[test]
fn frames_queued_together_are_collected_for_one_write() {
    let mut a = Node::new(Side::Initiator);
    let frame = || Event::Outgoing(Some(Bytes::from_static(b"ab")));
    assert_eq!(a.drive.to_collect(&frame(), 2), 2);
    assert_eq!(a.drive.to_collect(&frame(), 0), 0);
    assert_eq!(a.drive.to_collect(&Event::Outgoing(None), 2), 0);
    assert_eq!(a.drive.to_collect(&Event::Received(Some(5)), 2), 0);
    for _ in 0..3 {
        a.step(frame());
    }
    assert_eq!(&a.drive.write_buf[..], b"ababab");

    a.step(Event::Shutdown);
    assert_eq!(a.drive.to_collect(&frame(), 2), 0);
}
