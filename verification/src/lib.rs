//! A minimal stream multiplexer: one duplex connection carries any number of
//! independent, ordered, full-duplex substreams.
//!
//! There are two ways to use the crate. [`Multiplexer`] keeps a whole session:
//! it opens and accepts substreams, applies the frames of the peer and queues
//! those for it, and [`Drive`] says what the task that owns the transport does
//! next. [`Frame`] and [`FrameCodec`] alone are the wire format, for those who
//! dispatch frames themselves.
//!
//! # Wire format
//!
//! ```text
//! +--------+-------------------------------------------------+
//! |  Flag  |                     Stream ID                   |  (1 + 4 bytes)
//! +--------+-------------------------------------------------+
//! |                       Length (bytes)                     |  (4 bytes)
//! +----------------------------------------------------------+
//! |                     Payload (Length bytes)               |  (0..16 MiB)
//! +----------------------------------------------------------+
//! ```
//!
//! | Flag   | Value | Meaning                                            |
//! |--------|-------|----------------------------------------------------|
//! | Open   | `0x01`| announces a new substream                          |
//! | Data   | `0x02`| carries a chunk of substream payload               |
//! | Close  | `0x04`| tears down a substream in both directions          |
//! | GoAway | `0x08`| tears down the entire connection                   |
//!
//! Stream IDs are partitioned by side to avoid collisions: the dialing side
//! ([`Side::Initiator`]) mints odd IDs starting at `1`; the listening side
//! ([`Side::Responder`]) mints even IDs starting at `2`. `0` is reserved.
//!
//! # What is proved
//!
//! Each operation is specified over the model of a session,
//! [`mplex::MultiplexerView`]. [`format`] says byte by byte what the wire
//! format is, [`effects`] what each operation changes and that it changes
//! nothing else, [`wakeups`] that no waker gets lost, and [`task`] when the task
//! that drives the transport goes on or stops. What follows for a session as a
//! whole is stated in [`codec`], [`session`], [`operations`], [`delivery`],
//! [`teardown`], [`waiting`], [`minting`], [`run`] and [`connection`] (both
//! sides together).

// The wire format.
pub mod buffer;
pub mod codec;
pub mod error;
pub mod frame;

// A session.
pub mod arena;
pub mod channel;
pub mod drive;
pub mod incoming;
pub mod mplex;
pub mod stream;

// What holds of sessions and connections as a whole.
pub mod connection;
pub mod delivery;
pub mod effects;
pub mod format;
pub mod minting;
pub mod operations;
pub mod run;
pub mod session;
pub mod task;
pub mod teardown;
pub mod waiting;
pub mod wakeups;

pub use codec::FrameCodec;
pub use drive::{Drive, Event, Phase};
pub use error::{Error, ErrorKind};
pub use frame::{
    Flag, Frame, StreamId, FLAG_CLOSE, FLAG_DATA, FLAG_GOAWAY, FLAG_OPEN, FRAME_HEADER_LEN,
    MAX_FRAME_PAYLOAD,
};
pub use incoming::Poll;
pub use mplex::{Accept, Multiplexer, Side, Teardown};
pub use stream::Stream;
