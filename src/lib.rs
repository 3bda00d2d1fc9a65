//! Length-framed, multi-segment message streams with per-phase deadlines.
//!
//! The `serialization` module frames messages on the wire, the `stream`
//! module decides how a connection moves between its phases, and `protocol`
//! holds the vocabulary that endpoints speak.

pub mod error;
pub mod protocol;
pub mod serialization;
pub mod stream;

pub use error::{Error, Exception};
pub use protocol::{Action, ConnectionState};
pub use serialization::{
    read_segment_count, read_segment_table, read_segments, write_message, DecodeError,
    MessageWriter, OwnedSegments, ReaderOptions,
};
pub use stream::{Capnp, CapnpState, Deadline, Expectation, Intent, ReadOutcome, Reading};
