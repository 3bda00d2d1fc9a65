//! What endpoints tell a connection, and what a connection tells them.
use std::time::Duration;
use vstd::prelude::*;

verus! {

/// The new state of an endpoint together with what the connection does next.
pub enum Action<E> {
    /// Wait for a new message until the idle timeout expires.
    Idle(E),
    /// Receive a message until the receive timeout expires.
    Recv(E),
    /// Flush the outgoing bytes until the send timeout expires.
    Flush(E),
    /// Sleep for the given time.
    Sleep(E, Duration),
    /// Close the connection at once, dropping whatever is buffered.
    Close,
}

/// State of the underlying connection, as reported to an endpoint whose
/// deadline has elapsed.
#[derive(Debug, Clone, Copy, PartialEq, Eq, Structural)]
pub enum ConnectionState {
    Idle,
    Receiving,
    Sending,
    Sleeping,
}

} // verus!
