//! The two kinds of failure that end a connection.
use crate::serialization::DecodeError;
use vstd::prelude::*;

verus! {

/// Declares `std::io::Error` so that transport failures can carry it.
#[verifier::external_type_specification]
#[verifier::external_body]
pub struct ExIoError(std::io::Error);

/// A failure of the stream under a connection.
#[derive(Debug)]
pub enum Exception {
    /// The peer closed the stream.
    EndOfStream,
    /// More bytes were buffered than the transport allows.
    LimitReached,
    /// Reading from the stream failed.
    ReadError(std::io::Error),
    /// Connecting the stream failed.
    ConnectError(std::io::Error),
    /// Writing to the stream failed.
    WriteError(std::io::Error),
}

/// Why a connection was torn down.
#[derive(Debug)]
pub enum Error {
    /// The incoming bytes do not frame an acceptable message.
    Serialization(DecodeError),
    /// The stream under the connection failed.
    Stream(Exception),
}

} // verus!
