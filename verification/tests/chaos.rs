//! Many sessions with randomised schedules, and adversarial input.
//!
//! Everything is driven by a seeded generator. The seed is printed at the
//! start of each test.

use std::time::{SystemTime, UNIX_EPOCH};

use bytes::{BufMut, Bytes, BytesMut};
use peaplex::{
    Drive, Event, Frame, FrameCodec, Multiplexer, Phase, Poll, Side, Stream, StreamId, Teardown,
};
use tokio::sync::mpsc::UnboundedReceiver;

struct Rng(u64);

impl Rng {
    fn new(seed: u64) -> Self {
        Rng(seed)
    }

    fn next_u64(&mut self) -> u64 {
        self.0 = self.0.wrapping_add(0x9E37_79B9_7F4A_7C15);
        let mut z = self.0;
        z = (z ^ (z >> 30)).wrapping_mul(0xBF58_476D_1CE4_E5B9);
        z = (z ^ (z >> 27)).wrapping_mul(0x94D0_49BB_1331_11EB);
        z ^ (z >> 31)
    }

    /// Uniform in `0..n` (n > 0).
    fn below(&mut self, n: u64) -> u64 {
        self.next_u64() % n
    }

    /// `true` with probability `num/den`.
    fn chance(&mut self, num: u64, den: u64) -> bool {
        self.below(den) < num
    }
}

fn root_seed() -> u64 {
    SystemTime::now().duration_since(UNIX_EPOCH).unwrap().as_nanos() as u64 | 1
}

// Self-describing payloads: each substream carries a header
// `[seed: u64 BE][total_len: u32 BE]` followed by a keystream derived from the
// seed, so that a reader can tell any corruption, reordering, or byte of
// another substream.

const HDR: usize = 12;

fn body_byte(seed: u64, i: usize) -> u8 {
    let mut x = seed ^ (i as u64).wrapping_mul(0x9E37_79B9_7F4A_7C15);
    x = (x ^ (x >> 29)).wrapping_mul(0xBF58_476D_1CE4_E5B9);
    (x >> 33) as u8
}

fn make_payload(seed: u64, total_len: usize) -> Vec<u8> {
    assert!(total_len >= HDR);
    let mut v = Vec::with_capacity(total_len);
    v.extend_from_slice(&seed.to_be_bytes());
    v.extend_from_slice(&(total_len as u32).to_be_bytes());
    for i in 0..(total_len - HDR) {
        v.push(body_byte(seed, i));
    }
    v
}

/// Verifies that `received` is a correct prefix of the payload that its header
/// describes. Returns the intended total length. Panics on any mismatch.
fn verify_prefix(received: &[u8]) -> usize {
    assert!(
        received.len() >= HDR || received.is_empty(),
        "stream delivered {} bytes - not enough for a header and not empty",
        received.len()
    );
    if received.is_empty() {
        return 0;
    }
    let seed = u64::from_be_bytes(received[0..8].try_into().unwrap());
    let total_len = u32::from_be_bytes(received[8..12].try_into().unwrap()) as usize;
    assert!(
        received.len() <= total_len,
        "received {} bytes > intended {} (over-delivery)",
        received.len(),
        total_len
    );
    for (i, &b) in received.iter().enumerate().skip(HDR) {
        assert_eq!(
            b,
            body_byte(seed, i - HDR),
            "byte {i} corrupted or mis-delivered (seed {seed:#x})"
        );
    }
    total_len
}

/// One direction of a transport that holds a limited number of bytes.
struct Pipe {
    bytes: BytesMut,
    capacity: usize,
    closed: bool,
}

impl Pipe {
    fn new(capacity: usize) -> Pipe {
        Pipe { bytes: BytesMut::new(), capacity, closed: false }
    }
}

/// One side of a connection.
struct Node {
    mux: Multiplexer<u32>,
    rx: UnboundedReceiver<Bytes>,
    drive: Drive,
    signalled: bool,
}

impl Node {
    fn new(side: Side) -> Node {
        let (mux, rx) = Multiplexer::new(side);
        Node { mux, rx, drive: Drive::new(), signalled: false }
    }

    fn tear_down(&mut self, teardown: Teardown<u32>) {
        self.signalled |= teardown.signal;
    }

    fn write(&mut self, out: &mut Pipe, most: usize) -> bool {
        if out.closed {
            self.drive.step(&mut self.mux, Event::Written(None));
            return true;
        }
        let n = (out.capacity - out.bytes.len()).min(self.drive.write_buf.len()).min(most);
        if n == 0 {
            return false;
        }
        out.bytes.extend_from_slice(&self.drive.write_buf[..n]);
        self.drive.step(&mut self.mux, Event::Written(Some(n)));
        true
    }

    /// Takes one turn, if there is anything to do, and moves at most `most`
    /// bytes.
    fn turn(&mut self, out: &mut Pipe, inp: &mut Pipe, most: usize) -> bool {
        match self.drive.phase {
            Phase::Running => {
                if self.signalled {
                    self.drive.step(&mut self.mux, Event::Shutdown);
                    return true;
                }
                if self.drive.has_output() && self.write(out, most) {
                    return true;
                }
                if let Ok(bytes) = self.rx.try_recv() {
                    self.drive.step(&mut self.mux, Event::Outgoing(Some(bytes)));
                    return true;
                }
                let n = inp.bytes.len().min(most);
                if n > 0 {
                    let arrived = inp.bytes.split_to(n);
                    self.drive.read_buf.extend_from_slice(&arrived);
                    self.drive.step(&mut self.mux, Event::Received(Some(n)));
                    return true;
                }
                if inp.closed {
                    self.drive.step(&mut self.mux, Event::Received(Some(0)));
                    return true;
                }
                false
            }
            Phase::Draining => {
                let next = self.rx.try_recv().ok();
                self.drive.step(&mut self.mux, Event::Outgoing(next));
                true
            }
            Phase::Flushing => self.write(out, most),
            Phase::Stopped => {
                self.rx.close();
                let news = !out.closed || !inp.closed;
                out.closed = true;
                inp.closed = true;
                news
            }
        }
    }
}

const MAX_BODY: u64 = 64 * 1024;
const MAX_STREAMS: u64 = 24;

/// What is left to write on one substream.
struct Writer {
    stream: Option<Stream>,
    payload: Vec<u8>,
    at: usize,
    chunk: usize,
    shutdown_first: bool,
    done: bool,
}

impl Writer {
    /// Does the next thing that there is to do.
    fn advance(&mut self, node: &mut Node, torn: bool) {
        let Some(mut stream) = self.stream.take() else {
            match node.mux.open_stream() {
                Ok(stream) => self.stream = Some(stream),
                Err(_) => {
                    assert!(torn);
                    self.done = true;
                }
            }
            return;
        };
        if self.at < self.payload.len() {
            let end = (self.at + self.chunk).min(self.payload.len());
            match stream.poll_write(&mut node.mux, &self.payload[self.at..end]) {
                Poll::Ready(Ok(n)) => {
                    assert_eq!(n, end - self.at);
                    self.at = end;
                    self.stream = Some(stream);
                    return;
                }
                _ => assert!(torn),
            }
        } else if self.shutdown_first {
            assert_eq!(stream.poll_shutdown(&mut node.mux), Poll::Ready(Ok(())));
        }
        stream.drop(&mut node.mux);
        self.done = true;
    }
}

/// What was read of one substream.
struct Reader {
    stream: Stream,
    got: Vec<u8>,
    ended: bool,
}

/// One side's part in a session.
struct Party {
    node: Node,
    writers: Vec<Writer>,
    readers: Vec<Reader>,
}

impl Party {
    fn new(side: Side, n: usize, seed: u64) -> Party {
        let mut rng = Rng::new(seed);
        let mut writers = Vec::new();
        for k in 0..n {
            let sseed = seed.wrapping_mul(0x100_0193).wrapping_add(k as u64 + 1);
            let total = HDR + rng.below(MAX_BODY) as usize;
            let chunk = HDR + rng.below(4096) as usize;
            writers.push(Writer {
                stream: None,
                payload: make_payload(sseed, total),
                at: 0,
                chunk,
                shutdown_first: rng.chance(1, 4),
                done: false,
            });
        }
        Party { node: Node::new(side), writers, readers: Vec::new() }
    }

    fn accept(&mut self) {
        if let Poll::Ready(Ok(stream)) = self.node.mux.accept().poll(&mut self.node.mux, 0) {
            self.readers.push(Reader { stream, got: Vec::new(), ended: false });
        }
    }

    fn read(&mut self, i: usize, limit: usize) -> bool {
        let reader = &mut self.readers[i];
        match reader.stream.poll_read(&mut self.node.mux, limit, i as u32) {
            Poll::Ready(bytes) => {
                reader.got.extend_from_slice(&bytes);
                reader.ended = bytes.is_empty();
                !reader.ended
            }
            Poll::Pending => false,
        }
    }

    /// Does something at random.
    fn act(&mut self, rng: &mut Rng, torn: bool) {
        match rng.below(4) {
            0 => self.accept(),
            1 | 2 => {
                let i = rng.below(self.writers.len() as u64) as usize;
                if !self.writers[i].done {
                    self.writers[i].advance(&mut self.node, torn);
                }
            }
            _ => {
                if !self.readers.is_empty() {
                    let i = rng.below(self.readers.len() as u64) as usize;
                    self.read(i, 1 + rng.below(8192) as usize);
                }
            }
        }
    }

    fn finish_writing(&mut self, torn: bool) {
        for writer in &mut self.writers {
            while !writer.done {
                writer.advance(&mut self.node, torn);
            }
        }
    }

    fn finish_reading(&mut self, expected: usize) {
        for _ in 0..expected {
            self.accept();
        }
        for i in 0..self.readers.len() {
            while self.read(i, 4096) {}
        }
    }
}

fn run_session(seed: u64, torn: bool) {
    let mut rng = Rng::new(seed);
    let capacity = 1 + rng.below(256 * 1024) as usize;
    let n_a = 1 + rng.below(MAX_STREAMS) as usize; // streams A opens (B accepts)
    let n_b = 1 + rng.below(MAX_STREAMS) as usize; // streams B opens (A accepts)
    let mut a = Party::new(Side::Initiator, n_a, seed ^ 0xA1);
    let mut b = Party::new(Side::Responder, n_b, seed ^ 0xB2);
    let mut ab = Pipe::new(capacity.max(1024));
    let mut ba = Pipe::new(capacity.max(1024));

    let steps = rng.below(2000);
    for _ in 0..steps {
        let party = if rng.chance(1, 2) { &mut a } else { &mut b };
        party.act(&mut rng, torn);
        a.node.turn(&mut ab, &mut ba, 1 + rng.below(100_000) as usize);
        b.node.turn(&mut ba, &mut ab, 1 + rng.below(100_000) as usize);
    }
    if torn {
        let node = if rng.chance(1, 2) { &mut a.node } else { &mut b.node };
        let reason = rng.next_u64() as u32;
        let teardown = if rng.chance(1, 2) { node.mux.goaway(reason) } else { node.mux.shutdown() };
        node.tear_down(teardown);
    }
    a.finish_writing(torn);
    b.finish_writing(torn);
    loop {
        let moved = a.node.turn(&mut ab, &mut ba, usize::MAX);
        if !b.node.turn(&mut ba, &mut ab, usize::MAX) && !moved {
            break;
        }
    }
    a.finish_reading(n_b);
    b.finish_reading(n_a);

    // Every substream that was delivered is a correct prefix, and ended.
    for reader in a.readers.iter().chain(b.readers.iter()) {
        assert!(reader.ended, "reader hung");
        let total = verify_prefix(&reader.got);
        if !torn {
            assert_eq!(reader.got.len(), total, "clean session delivered a short stream");
        }
    }
    // A clean session delivers every substream.
    if !torn {
        assert_eq!(a.readers.len(), n_b, "A missed some of B's streams");
        assert_eq!(b.readers.len(), n_a, "B missed some of A's streams");
    }
}

#[test]
fn chaos_many_sessions() {
    let root = root_seed();
    println!("chaos_many_sessions seed = {root:#x}");
    let mut rng = Rng::new(root);

    const SESSIONS: usize = 48;
    for _ in 0..SESSIONS {
        let seed = rng.next_u64();
        let torn = rng.chance(2, 5); // ~40% of sessions get torn down mid-flight
        println!("session seed = {seed:#x}, torn = {torn}");
        run_session(seed, torn);
    }
}

#[test]
fn simultaneous_bidirectional_bulk() {
    // Two peers that each push a large payload at once over a small transport:
    // neither may wait for the other to read first.
    const N: usize = 8 * 1024 * 1024;
    let mut a = Node::new(Side::Initiator);
    let mut b = Node::new(Side::Responder);
    let mut ab = Pipe::new(64 * 1024);
    let mut ba = Pipe::new(64 * 1024);
    for node in [&mut a, &mut b] {
        let s = node.mux.open_stream().unwrap();
        assert_eq!(s.poll_write(&mut node.mux, &vec![0xAB_u8; N]), Poll::Ready(Ok(N)));
        s.drop(&mut node.mux);
    }
    loop {
        let moved = a.turn(&mut ab, &mut ba, usize::MAX);
        if !b.turn(&mut ba, &mut ab, usize::MAX) && !moved {
            break;
        }
    }
    for node in [&mut a, &mut b] {
        let s = match node.mux.accept().poll(&mut node.mux, 0) {
            Poll::Ready(Ok(s)) => s,
            _ => panic!("nothing to accept"),
        };
        let mut got = 0;
        loop {
            match s.poll_read(&mut node.mux, 1 << 20, 0) {
                Poll::Ready(bytes) if bytes.is_empty() => break,
                Poll::Ready(bytes) => {
                    assert!(bytes.iter().all(|&x| x == 0xAB));
                    got += bytes.len();
                }
                Poll::Pending => panic!("DEADLOCK: {N}-byte transfer hung"),
            }
        }
        assert_eq!(got, N);
    }
}

fn random_frame(rng: &mut Rng) -> Frame {
    let id = StreamId(rng.next_u64() as u32);
    match rng.below(4) {
        0 => Frame::open(id),
        1 => Frame::close(id),
        2 => Frame::goaway(rng.next_u64() as u32),
        _ => {
            let len = rng.below(8 * 1024) as usize;
            let mut p = BytesMut::with_capacity(len);
            let seed = rng.next_u64();
            for i in 0..len {
                p.put_u8(body_byte(seed, i));
            }
            Frame::data(id, p.freeze())
        }
    }
}

#[test]
fn codec_chunked_roundtrip() {
    let root = root_seed();
    println!("codec_chunked_roundtrip seed = {root:#x}");
    for round in 0..300u64 {
        let mut rng = Rng::new(root ^ round.wrapping_mul(0x9E37_79B9));
        let n = 1 + rng.below(20);
        let mut frames = Vec::new();
        let mut encoded = BytesMut::new();
        for _ in 0..n {
            let f = random_frame(&mut rng);
            FrameCodec.encode(f.clone(), &mut encoded).unwrap();
            frames.push(f);
        }

        let bytes = encoded.to_vec();
        let mut dec = FrameCodec;
        let mut acc = BytesMut::new();
        let mut got = Vec::new();
        let mut pos = 0;
        while pos < bytes.len() {
            let take = 1 + rng.below((bytes.len() - pos) as u64) as usize;
            acc.extend_from_slice(&bytes[pos..pos + take]);
            pos += take;
            while let Some(f) = dec.decode(&mut acc).unwrap() {
                got.push(f);
            }
        }
        assert_eq!(got, frames, "round {round}: chunked decode != original");
    }
}

#[test]
fn codec_garbage_never_panics() {
    let root = root_seed();
    println!("codec_garbage_never_panics seed = {root:#x}");
    for round in 0..2000u64 {
        let mut rng = Rng::new(root ^ round.wrapping_mul(0xD1B5_4A32) ^ 0xF00D);
        let len = rng.below(64) as usize;
        let mut buf = BytesMut::with_capacity(len);
        for _ in 0..len {
            buf.put_u8(rng.next_u64() as u8);
        }
        let mut dec = FrameCodec;
        // Terminates on Ok(None) (needs more) or Err (rejected); the test
        // asserts only that it never panics and always terminates.
        while let Ok(Some(_)) = dec.decode(&mut buf) {}
    }
}
