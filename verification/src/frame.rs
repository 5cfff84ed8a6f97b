//! The wire format.
//!
//! A frame is a header of nine bytes and a payload:
//!
//! ```text
//! +--------+-------------------------------------------------+
//! |  Flag  |                     Stream ID                   |  (1 + 4 bytes)
//! +--------+-------------------------------------------------+
//! |                       Length (bytes)                     |  (4 bytes)
//! +----------------------------------------------------------+
//! |                     Payload (Length bytes)               |  (0..16 MiB)
//! +----------------------------------------------------------+
//! ```
//!
//! Numbers are big-endian. Stream IDs are partitioned by side: the dialing
//! side picks odd IDs starting at `1`, the listening side even IDs starting at
//! `2`. `0` is reserved.
use bytes::Bytes;
use vstd::prelude::*;

use crate::buffer::bytes_view;

verus! {

/// Size in bytes of the frame header.
pub const FRAME_HEADER_LEN: usize = 9;

/// Maximum size in bytes of a single frame's payload (16 MiB).
pub const MAX_FRAME_PAYLOAD: u32 = 16 * 1024 * 1024;

/// Flag byte for an [`Open`](Flag::Open) frame.
pub const FLAG_OPEN: u8 = 0x01;

/// Flag byte for a [`Data`](Flag::Data) frame.
pub const FLAG_DATA: u8 = 0x02;

/// Flag byte for a [`Close`](Flag::Close) frame.
pub const FLAG_CLOSE: u8 = 0x04;

/// Flag byte for a [`GoAway`](Flag::GoAway) frame.
pub const FLAG_GOAWAY: u8 = 0x08;

/// The kind of message carried by a [`Frame`].
#[derive(Clone, Copy, Debug, PartialEq, Eq, Structural)]
pub enum Flag {
    /// Announces a new substream.
    Open,
    /// Carries a chunk of substream payload.
    Data,
    /// Tears down a substream in both directions.
    Close,
    /// Tears down the entire connection; payload is a `u32` reason.
    GoAway,
}

impl Flag {
    /// The byte that stands for a flag on the wire.
    pub open spec fn byte(self) -> u8 {
        match self {
            Flag::Open => FLAG_OPEN,
            Flag::Data => FLAG_DATA,
            Flag::Close => FLAG_CLOSE,
            Flag::GoAway => FLAG_GOAWAY,
        }
    }

    /// The flag that a byte stands for, if it stands for one.
    pub open spec fn of_byte(v: u8) -> Option<Flag> {
        if v == FLAG_OPEN {
            Some(Flag::Open)
        } else if v == FLAG_DATA {
            Some(Flag::Data)
        } else if v == FLAG_CLOSE {
            Some(Flag::Close)
        } else if v == FLAG_GOAWAY {
            Some(Flag::GoAway)
        } else {
            None
        }
    }

    /// Decodes a flag byte.
    pub fn from_u8(v: u8) -> (flag: Option<Self>)
        ensures
            flag == Flag::of_byte(v),
    {
        match v {
            FLAG_OPEN => Some(Flag::Open),
            FLAG_DATA => Some(Flag::Data),
            FLAG_CLOSE => Some(Flag::Close),
            FLAG_GOAWAY => Some(Flag::GoAway),
            _ => None,
        }
    }

    /// Returns the on-the-wire byte for this flag.
    pub fn to_u8(self) -> (v: u8)
        ensures
            v == self.byte(),
    {
        match self {
            Flag::Open => FLAG_OPEN,
            Flag::Data => FLAG_DATA,
            Flag::Close => FLAG_CLOSE,
            Flag::GoAway => FLAG_GOAWAY,
        }
    }
}

/// Identifier of a single substream within a connection.
#[derive(Clone, Copy, Debug, PartialEq, Eq, PartialOrd, Ord, Hash, Structural)]
pub struct StreamId(pub u32);

impl StreamId {
    /// Constructs a `StreamId` from its raw value.
    pub fn new(id: u32) -> (stream_id: Self)
        ensures
            stream_id == StreamId(id),
    {
        StreamId(id)
    }

    /// Returns the raw numeric value.
    pub fn get(self) -> (id: u32)
        ensures
            id == self.0,
    {
        self.0
    }

    /// `true` if this ID was minted by the dialing side.
    pub fn is_initiator(self) -> (odd: bool)
        ensures
            odd == (self.0 % 2 == 1),
    {
        let id: u32 = self.0;
        assert((id & 1 == 1) == (id % 2 == 1)) by (bit_vector);
        id & 1 == 1
    }

    /// `true` if this ID was minted by the listening side.
    pub fn is_responder(self) -> (even: bool)
        ensures
            even == (self.0 % 2 == 0),
    {
        let id: u32 = self.0;
        assert((id & 1 == 0) == (id % 2 == 0)) by (bit_vector);
        id & 1 == 0
    }
}

/// The four bytes of a number, the most significant first.
pub open spec fn be_bytes(n: u32) -> Seq<u8> {
    seq![
        (n / 0x100_0000) as u8,
        (n / 0x1_0000 % 0x100) as u8,
        (n / 0x100 % 0x100) as u8,
        (n % 0x100) as u8,
    ]
}

/// The number that four bytes stand for, the most significant first.
pub open spec fn be_value(s: Seq<u8>) -> u32 {
    (s[0] * 0x100_0000 + s[1] * 0x1_0000 + s[2] * 0x100 + s[3]) as u32
}

/// Writing a number as four bytes and reading them gives the number back.
pub proof fn be_round_trip(n: u32)
    ensures
        be_bytes(n).len() == 4,
        be_value(be_bytes(n)) == n,
{
}

/// Reading four bytes as a number and writing it gives the bytes back.
pub proof fn be_round_trip_bytes(s: Seq<u8>)
    requires
        s.len() == 4,
    ensures
        be_bytes(be_value(s)) == s,
{
    let (a, b, c, d) = (s[0] as u32, s[1] as u32, s[2] as u32, s[3] as u32);
    let n = be_value(s);
    assert(a == n / 0x100_0000 && b == n / 0x1_0000 % 0x100 && c == n / 0x100 % 0x100 && d == n
        % 0x100) by (bit_vector)
        requires
            a < 0x100,
            b < 0x100,
            c < 0x100,
            d < 0x100,
            n == a * 0x100_0000 + b * 0x1_0000 + c * 0x100 + d,
    ;
    assert(be_bytes(n) =~= s);
}

/// Reads the four bytes at `at` as a big-endian number.
pub(crate) fn read_u32(s: &[u8], at: usize) -> (n: u32)
    requires
        at + 4 <= s@.len(),
    ensures
        n == be_value(s@.subrange(at as int, at + 4)),
{
    s[at] as u32 * 0x100_0000 + s[at + 1] as u32 * 0x1_0000 + s[at + 2] as u32 * 0x100 + s[at
        + 3] as u32
}

/// What a [`Frame`] says: its kind, its substream, and the bytes it carries.
pub struct FrameView {
    pub flag: Flag,
    pub stream_id: StreamId,
    pub payload: Seq<u8>,
}

impl FrameView {
    /// An `Open` frame.
    pub open spec fn open(stream_id: StreamId) -> FrameView {
        FrameView { flag: Flag::Open, stream_id, payload: Seq::empty() }
    }

    /// A `Data` frame.
    pub open spec fn data(stream_id: StreamId, payload: Seq<u8>) -> FrameView {
        FrameView { flag: Flag::Data, stream_id, payload }
    }

    /// A `Close` frame.
    pub open spec fn close(stream_id: StreamId) -> FrameView {
        FrameView { flag: Flag::Close, stream_id, payload: Seq::empty() }
    }

    /// A `GoAway` frame.
    pub open spec fn goaway(reason: u32) -> FrameView {
        FrameView { flag: Flag::GoAway, stream_id: StreamId(0), payload: be_bytes(reason) }
    }

    /// A frame has an encoding where its payload is not too long.
    pub open spec fn fits(self) -> bool {
        self.payload.len() <= MAX_FRAME_PAYLOAD
    }

    /// The bytes that stand for a frame on the wire.
    pub open spec fn wire(self) -> Seq<u8> {
        seq![self.flag.byte()] + be_bytes(self.stream_id.0) + be_bytes(self.payload.len() as u32)
            + self.payload
    }
}

/// A single frame.
///
/// Payloads are [`Bytes`], a reference-counted view onto the read buffer:
/// decoding never copies the payload.
#[derive(Debug, PartialEq, Eq)]
pub struct Frame {
    /// The kind of message.
    pub flag: Flag,
    /// The substream this frame belongs to.
    pub stream_id: StreamId,
    /// The payload; its meaning depends on [`Self::flag`]: empty for
    /// Open/Close, substream bytes for Data, a `u32` reason for GoAway.
    pub payload: Bytes,
}

impl View for Frame {
    type V = FrameView;

    open spec fn view(&self) -> FrameView {
        FrameView {
            flag: self.flag,
            stream_id: self.stream_id,
            payload: bytes_view(self.payload),
        }
    }
}

impl Clone for Frame {
    fn clone(&self) -> (copy: Self)
        ensures
            copy@ == self@,
    {
        Frame { flag: self.flag, stream_id: self.stream_id, payload: self.payload.clone() }
    }
}

impl Frame {
    /// Constructs an [`Open`](Flag::Open) frame.
    pub fn open(stream_id: StreamId) -> (frame: Self)
        ensures
            frame@ == FrameView::open(stream_id),
    {
        Frame { flag: Flag::Open, stream_id, payload: Bytes::new() }
    }

    /// Constructs a [`Data`](Flag::Data) frame.
    pub fn data(stream_id: StreamId, payload: Bytes) -> (frame: Self)
        ensures
            frame@ == FrameView::data(stream_id, bytes_view(payload)),
            frame.payload == payload,
    {
        Frame { flag: Flag::Data, stream_id, payload }
    }

    /// Constructs a [`Close`](Flag::Close) frame.
    pub fn close(stream_id: StreamId) -> (frame: Self)
        ensures
            frame@ == FrameView::close(stream_id),
    {
        Frame { flag: Flag::Close, stream_id, payload: Bytes::new() }
    }

    /// Constructs a [`GoAway`](Flag::GoAway) frame with the given reason
    /// code. The `stream_id` field is a placeholder; the dispatcher ignores
    /// it.
    pub fn goaway(reason: u32) -> (frame: Self)
        ensures
            frame@ == FrameView::goaway(reason),
    {
        let payload: [u8; 4] = [
            (reason / 0x100_0000) as u8,
            (reason / 0x1_0000 % 0x100) as u8,
            (reason / 0x100 % 0x100) as u8,
            (reason % 0x100) as u8,
        ];
        assert(payload@ =~= be_bytes(reason));
        Frame {
            flag: Flag::GoAway,
            stream_id: StreamId(0),
            payload: Bytes::copy_from_slice(&payload),
        }
    }
}

} // verus!
