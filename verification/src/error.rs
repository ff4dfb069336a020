//! Error kinds returned by the streaming core.
use vstd::prelude::*;

verus! {

/// Every failure the core can report, one variant per kind.
#[derive(Clone, Copy, Debug, PartialEq, Eq, Structural)]
pub enum Error {
    Unauthenticated,
    Unauthorized,
    NotFound,
    AlreadyExists,
    InvalidArgument,
    OffsetOutOfRange,
    SegmentClosed,
    StorageFull,
    IoError,
    CorruptedData,
    Backpressured,
    FeatureUnavailable,
    Timeout,
    Cancelled,
}

impl Error {
    /// A short stable name for the error, for logs and transport.
    pub fn as_code(&self) -> (r: u32)
        ensures
            r == self.spec_code(),
    {
        match self {
            Error::Unauthenticated => 1,
            Error::Unauthorized => 2,
            Error::NotFound => 3,
            Error::AlreadyExists => 4,
            Error::InvalidArgument => 5,
            Error::OffsetOutOfRange => 6,
            Error::SegmentClosed => 7,
            Error::StorageFull => 8,
            Error::IoError => 9,
            Error::CorruptedData => 10,
            Error::Backpressured => 11,
            Error::FeatureUnavailable => 12,
            Error::Timeout => 13,
            Error::Cancelled => 14,
        }
    }

    /// The status code of each error kind; 0 is reserved for success.
    pub open spec fn spec_code(self) -> u32 {
        match self {
            Error::Unauthenticated => 1,
            Error::Unauthorized => 2,
            Error::NotFound => 3,
            Error::AlreadyExists => 4,
            Error::InvalidArgument => 5,
            Error::OffsetOutOfRange => 6,
            Error::SegmentClosed => 7,
            Error::StorageFull => 8,
            Error::IoError => 9,
            Error::CorruptedData => 10,
            Error::Backpressured => 11,
            Error::FeatureUnavailable => 12,
            Error::Timeout => 13,
            Error::Cancelled => 14,
        }
    }
}

} // verus!
