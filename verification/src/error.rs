//! The errors that a session reports.
use vstd::prelude::*;

verus! {

/// The broad class of an [`Error`], in the vocabulary of `std::io`.
#[derive(Clone, Copy, Debug, PartialEq, Eq, Structural)]
pub enum ErrorKind {
    /// The session or the substream no longer takes frames.
    BrokenPipe,
    /// Bytes that are no frame, or a frame that has no encoding.
    InvalidData,
    /// An argument that the operation cannot take.
    InvalidInput,
    /// The session has been shut down.
    Other,
}

/// Why an operation failed.
#[derive(Clone, Copy, Debug, PartialEq, Eq, Structural)]
pub enum Error {
    /// A header starts with a byte that is no flag.
    UnknownFlag,
    /// A payload is longer than a frame may carry.
    FrameTooLarge,
    /// A frame could not be encoded for sending.
    Unencodable,
    /// A write is longer than a frame may carry.
    WriteTooLarge,
    /// The peer can no longer be reached, or the substream was shut down.
    BrokenPipe,
    /// The session has been shut down.
    Closed,
}

impl Error {
    /// The class that an error belongs to.
    pub open spec fn spec_kind(self) -> ErrorKind {
        match self {
            Error::UnknownFlag | Error::FrameTooLarge | Error::Unencodable => {
                ErrorKind::InvalidData
            },
            Error::WriteTooLarge => ErrorKind::InvalidInput,
            Error::BrokenPipe => ErrorKind::BrokenPipe,
            Error::Closed => ErrorKind::Other,
        }
    }

    /// The explanation that goes with an error, where there is one.
    pub open spec fn spec_message(self) -> Option<Seq<char>> {
        match self {
            Error::UnknownFlag => Some("unknown peaplex flag"@),
            Error::FrameTooLarge => Some("peaplex frame too large"@),
            Error::WriteTooLarge => Some("write buffer exceeds peaplex max frame size"@),
            _ => None,
        }
    }

    /// Returns the class of this error.
    pub fn kind(self) -> (kind: ErrorKind)
        ensures
            kind == self.spec_kind(),
    {
        match self {
            Error::UnknownFlag | Error::FrameTooLarge | Error::Unencodable => {
                ErrorKind::InvalidData
            },
            Error::WriteTooLarge => ErrorKind::InvalidInput,
            Error::BrokenPipe => ErrorKind::BrokenPipe,
            Error::Closed => ErrorKind::Other,
        }
    }

    /// Returns the explanation that goes with this error, where there is one.
    pub fn message(self) -> (message: Option<&'static str>)
        ensures
            message is Some == self.spec_message() is Some,
            message matches Some(text) ==> self.spec_message() == Some(text@),
    {
        match self {
            Error::UnknownFlag => Some("unknown peaplex flag"),
            Error::FrameTooLarge => Some("peaplex frame too large"),
            Error::WriteTooLarge => Some("write buffer exceeds peaplex max frame size"),
            _ => None,
        }
    }
}

} // verus!
