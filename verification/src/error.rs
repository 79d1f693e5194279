//! The ways a synchronization run can fail.

use vstd::prelude::*;
use vstd::string::*;

verus! {

/// Why a source descriptor was rejected before any remote call was made.
#[derive(Clone, Copy, Debug, PartialEq, Eq, Structural)]
pub enum Malformation {
    /// The argument is no valid UTF-8 text.
    InvalidText,
    /// The text holds no `:` between source type and payload.
    MissingSeparator,
    /// The source type is not one this library can resolve.
    UnknownSourceType,
    /// The payload is neither `owner/repo` nor `owner/repo/branch`.
    BadPayloadShape,
}

/// An error of the synchronization pipeline. Each one aborts the whole run.
#[derive(Clone, Copy, Debug, PartialEq, Eq, Structural)]
pub enum SyncError {
    /// Bad user input; no network call was attempted.
    MalformedDescriptor(Malformation),
    /// The remote answered with a status outside the success range.
    RemoteRequest { status: u16 },
    /// The remote's answer did not have the expected structure.
    RemoteProtocol,
    /// The downloaded bytes are no valid archive, or an entry could not be read.
    Archive,
    /// The state file could not be written.
    Persistence,
}

impl SyncError {
    /// The text shown to the user for this error.
    pub open spec fn spec_message(self) -> Seq<char> {
        match self {
            SyncError::MalformedDescriptor(Malformation::InvalidText) =>
                "all arguments must be valid UTF-8"@,
            SyncError::MalformedDescriptor(Malformation::MissingSeparator) =>
                "all arguments must be in the form source:arg"@,
            SyncError::MalformedDescriptor(Malformation::UnknownSourceType) =>
                "source type must be github"@,
            SyncError::MalformedDescriptor(Malformation::BadPayloadShape) =>
                "github source must be either github:owner/repo or github:owner/repo/branch"@,
            SyncError::RemoteRequest { status } => "the remote refused the request"@,
            SyncError::RemoteProtocol => "the remote sent an unexpected response"@,
            SyncError::Archive => "the downloaded archive could not be read"@,
            SyncError::Persistence => "the watermark file could not be written"@,
        }
    }

    /// The text shown to the user for this error. A refused request carries
    /// its status code in the `status` field.
    pub fn message(&self) -> (r: String)
        ensures
            r@ == self.spec_message(),
    {
        match self {
            SyncError::MalformedDescriptor(Malformation::InvalidText) => String::from_str(
                "all arguments must be valid UTF-8",
            ),
            SyncError::MalformedDescriptor(Malformation::MissingSeparator) => String::from_str(
                "all arguments must be in the form source:arg",
            ),
            SyncError::MalformedDescriptor(Malformation::UnknownSourceType) => String::from_str(
                "source type must be github",
            ),
            SyncError::MalformedDescriptor(Malformation::BadPayloadShape) => String::from_str(
                "github source must be either github:owner/repo or github:owner/repo/branch",
            ),
            SyncError::RemoteRequest { status } => String::from_str(
                "the remote refused the request",
            ),
            SyncError::RemoteProtocol => String::from_str("the remote sent an unexpected response"),
            SyncError::Archive => String::from_str("the downloaded archive could not be read"),
            SyncError::Persistence => String::from_str("the watermark file could not be written"),
        }
    }
}

} // verus!
