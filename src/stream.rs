//! The connection state machine: which phase a connection is in, what it
//! waits for, and what each transport event turns it into.
use crate::error::{Error, Exception};
use crate::protocol::{Action, ConnectionState};
use crate::serialization::{
    accepts_words, declared_segment_count, read_segment_count, read_segment_table,
    read_segments, slices_match, slices_within, table_bytes, words_before, DecodeError,
    OwnedSegments, ReaderOptions, SEGMENT_LIMIT,
};
use std::time::Duration;
use vstd::prelude::*;

verus! {

/// How far the header of an incoming message has been read.
#[derive(Debug)]
pub enum Reading {
    /// Waiting for the segment count.
    SegmentCount,
    /// Waiting for the table of this many segment lengths.
    SegmentTable(usize),
    /// Waiting for this many words of segments, with each segment's range.
    Segments(usize, Vec<(usize, usize)>),
}

/// The phase a connection is in.
#[derive(Debug)]
pub enum CapnpState {
    Idle,
    Reading(Reading),
    Writing,
    Sleeping,
}

/// What the transport waits for before it calls the connection again.
#[derive(Debug, Clone, Copy, PartialEq, Eq, Structural)]
pub enum Expectation {
    /// At least this many buffered input bytes.
    Bytes(usize),
    /// All outgoing bytes written.
    Flush,
    /// Nothing but the deadline.
    Sleep,
}

/// The timeout after which the current phase's deadline falls.
#[derive(Debug, Clone, Copy)]
pub enum Deadline {
    /// The endpoint's idle timeout.
    Idle,
    /// The endpoint's receive timeout.
    Recv,
    /// The endpoint's send timeout.
    Send,
    /// This much time.
    After(Duration),
}

/// How many buffered bytes the reading stage `state` needs before it can
/// run.
pub open spec fn bytes_needed(state: Reading) -> int {
    match state {
        Reading::SegmentCount => 4,
        Reading::SegmentTable(count) => table_bytes(count as int),
        Reading::Segments(total_words, _) => 8 * total_words,
    }
}

/// Whether `state` is one that the reading of a message can be in.
pub open spec fn reading_ok(state: Reading) -> bool {
    match state {
        Reading::SegmentCount => true,
        Reading::SegmentTable(count) => 1 <= count < SEGMENT_LIMIT,
        Reading::Segments(total_words, slices) => 8 * total_words <= usize::MAX
            && slices_within(slices@, total_words as int),
    }
}

/// Whether a connection may be in `state`.
pub open spec fn state_ok(state: CapnpState) -> bool {
    match state {
        CapnpState::Reading(r) => reading_ok(r),
        _ => true,
    }
}

/// What reading the segment count from `s` leaves: `rest` is `s` without
/// the count word, and the connection goes on to the segment table or fails.
pub open spec fn count_step<E>(fsm: E, s: Seq<u8>, rest: Seq<u8>, r: ReadOutcome<E>) -> bool {
    let count = declared_segment_count(s);
    &&& rest == s.subrange(4, s.len() as int)
    &&& if 1 <= count < SEGMENT_LIMIT {
        &&& r matches ReadOutcome::Continue(Intent::Wait { machine, expect, deadline })
        &&& machine.endpoint() == fsm
        &&& machine.phase() == CapnpState::Reading(Reading::SegmentTable(count as usize))
        &&& expect == Expectation::Bytes(table_bytes(count) as usize)
        &&& deadline is Recv
    } else {
        &&& r matches ReadOutcome::Failed(f, err)
        &&& f == fsm
        &&& err == Error::Serialization(
            if count == 0 {
                DecodeError::TooFewSegments
            } else {
                DecodeError::TooManySegments(count as usize)
            },
        )
    }
}

/// What reading a table of `count` segment lengths from `s` leaves: `rest`
/// is `s` without the table and its padding, and the connection goes on to
/// the segments or fails.
pub open spec fn table_step<E>(
    fsm: E,
    s: Seq<u8>,
    rest: Seq<u8>,
    count: usize,
    options: ReaderOptions,
    r: ReadOutcome<E>,
) -> bool {
    let total = words_before(s, count as nat);
    &&& rest == s.subrange(table_bytes(count as int), s.len() as int)
    &&& if accepts_words(total, options) {
        &&& r matches ReadOutcome::Continue(Intent::Wait { machine, expect, deadline })
        &&& machine.endpoint() == fsm
        &&& machine.phase() matches CapnpState::Reading(Reading::Segments(total_words, slices))
        &&& total_words == total
        &&& slices_match(slices@, s, count as nat)
        &&& expect == Expectation::Bytes((8 * total) as usize)
        &&& deadline is Recv
    } else {
        &&& r matches ReadOutcome::Failed(f, err)
        &&& f == fsm
        &&& err == Error::Serialization(DecodeError::TooLarge(total as u64))
    }
}

/// A connection: the endpoint that handles it and the phase it is in.
pub struct Capnp<E> {
    fsm: E,
    state: CapnpState,
}

/// What the connection does after an event.
pub enum Intent<E> {
    /// Wait for `expect` until `deadline`, then go on as `machine`.
    Wait { machine: Capnp<E>, expect: Expectation, deadline: Deadline },
    /// Close the connection.
    Done,
}

/// What came of buffered input bytes.
pub enum ReadOutcome<E> {
    /// The message is not complete yet: wait as the intent says.
    Continue(Intent<E>),
    /// A message is complete: hand it to the endpoint.
    Received(E, OwnedSegments),
    /// The input cannot be a message: report the error to the endpoint,
    /// then close.
    Failed(E, Error),
}

impl<E> Capnp<E> {
    /// The endpoint of the connection.
    pub closed spec fn endpoint(&self) -> E {
        self.fsm
    }

    /// The phase of the connection.
    pub closed spec fn phase(&self) -> CapnpState {
        self.state
    }

    #[verifier::type_invariant]
    spec fn inv(&self) -> bool {
        state_ok(self.state)
    }

    /// The endpoint of the connection, to ask for its timeouts and limits.
    pub fn fsm(&self) -> (r: &E)
        ensures
            *r == self.endpoint(),
    {
        &self.fsm
    }

    /// Whether the connection is idle or reading a message, the phases in
    /// which input bytes are awaited.
    pub fn awaits_input(&self) -> (r: bool)
        ensures
            r == (self.phase() is Idle || self.phase() is Reading),
    {
        match self.state {
            CapnpState::Idle => true,
            CapnpState::Reading(_) => true,
            _ => false,
        }
    }

    /// Whether the connection waits for its outgoing bytes to be written.
    pub fn awaits_flush(&self) -> (r: bool)
        ensures
            r == self.phase() is Writing,
    {
        match self.state {
            CapnpState::Writing => true,
            _ => false,
        }
    }

    fn wait(fsm: E, state: CapnpState, expect: Expectation, deadline: Deadline) -> (r: Intent<E>)
        requires
            state_ok(state),
        ensures
            r matches Intent::Wait { machine, expect: x, deadline: d } && machine.endpoint()
                == fsm && machine.phase() == state && x == expect && d == deadline,
    {
        Intent::Wait { machine: Capnp { fsm, state }, expect, deadline }
    }

    /// The phase and wait that an endpoint's action calls for.
    pub fn from_action(action: Action<E>) -> (r: Intent<E>)
        ensures
            match action {
                Action::Idle(fsm) => r matches Intent::Wait { machine, expect, deadline }
                    && machine.endpoint() == fsm && machine.phase() is Idle && expect
                    == Expectation::Bytes(1) && deadline is Idle,
                Action::Recv(fsm) => r matches Intent::Wait { machine, expect, deadline }
                    && machine.endpoint() == fsm && machine.phase() == CapnpState::Reading(
                    Reading::SegmentCount,
                ) && expect == Expectation::Bytes(4) && deadline is Recv,
                Action::Flush(fsm) => r matches Intent::Wait { machine, expect, deadline }
                    && machine.endpoint() == fsm && machine.phase() is Writing && expect
                    == Expectation::Flush && deadline is Send,
                Action::Sleep(fsm, t) => r matches Intent::Wait { machine, expect, deadline }
                    && machine.endpoint() == fsm && machine.phase() is Sleeping && expect
                    == Expectation::Sleep && deadline == Deadline::After(t),
                Action::Close => r is Done,
            },
    {
        match action {
            Action::Idle(fsm) => Capnp::wait(fsm, CapnpState::Idle, Expectation::Bytes(1), Deadline::Idle),
            Action::Recv(fsm) => Capnp::wait(
                fsm,
                CapnpState::Reading(Reading::SegmentCount),
                Expectation::Bytes(4),
                Deadline::Recv,
            ),
            Action::Flush(fsm) => Capnp::wait(fsm, CapnpState::Writing, Expectation::Flush, Deadline::Send),
            Action::Sleep(fsm, t) => Capnp::wait(
                fsm,
                CapnpState::Sleeping,
                Expectation::Sleep,
                Deadline::After(t),
            ),
            Action::Close => Intent::Done,
        }
    }

    fn read_count(fsm: E, input: &mut Vec<u8>) -> (r: ReadOutcome<E>)
        requires
            old(input)@.len() >= 4,
        ensures
            count_step(fsm, old(input)@, final(input)@, r),
    {
        match read_segment_count(input) {
            Ok(count) => ReadOutcome::Continue(
                Capnp::wait(
                    fsm,
                    CapnpState::Reading(Reading::SegmentTable(count)),
                    Expectation::Bytes(4 * count + if count % 2 == 0 { 4 } else { 0 }),
                    Deadline::Recv,
                ),
            ),
            Err(e) => ReadOutcome::Failed(fsm, Error::Serialization(e)),
        }
    }

    fn read_table(fsm: E, input: &mut Vec<u8>, count: usize, options: ReaderOptions) -> (r:
        ReadOutcome<E>)
        requires
            1 <= count < SEGMENT_LIMIT,
            old(input)@.len() >= table_bytes(count as int),
        ensures
            table_step(fsm, old(input)@, final(input)@, count, options, r),
    {
        match read_segment_table(input, count, options) {
            Ok((total_words, slices)) => ReadOutcome::Continue(
                Capnp::wait(
                    fsm,
                    CapnpState::Reading(Reading::Segments(total_words, slices)),
                    Expectation::Bytes(8 * total_words),
                    Deadline::Recv,
                ),
            ),
            Err(e) => ReadOutcome::Failed(fsm, Error::Serialization(e)),
        }
    }

    /// Takes buffered input bytes. Idle with fewer than four bytes, the
    /// connection stays idle, consumes nothing and waits for four under the
    /// idle deadline; from four bytes on, the count word starts a message.
    /// While reading, each call takes the next part of the message (the
    /// count, the table, the segments) once all of its bytes are in, and
    /// otherwise consumes nothing and waits for them.
    pub fn bytes_read(self, input: &mut Vec<u8>, options: ReaderOptions) -> (r: ReadOutcome<E>)
        requires
            self.phase() is Idle || self.phase() is Reading,
        ensures
            ({
                let s = old(input)@;
                match self.phase() {
                    CapnpState::Idle => if s.len() < 4 {
                        &&& final(input)@ == s
                        &&& r matches ReadOutcome::Continue(Intent::Wait { machine, expect, deadline })
                        &&& machine.endpoint() == self.endpoint()
                        &&& machine.phase() is Idle
                        &&& expect == Expectation::Bytes(4)
                        &&& deadline is Idle
                    } else {
                        count_step(self.endpoint(), s, final(input)@, r)
                    },
                    CapnpState::Reading(stage) => if s.len() < bytes_needed(stage) {
                        &&& final(input)@ == s
                        &&& r matches ReadOutcome::Continue(Intent::Wait { machine, expect, deadline })
                        &&& machine.endpoint() == self.endpoint()
                        &&& machine.phase() == self.phase()
                        &&& expect == Expectation::Bytes(bytes_needed(stage) as usize)
                        &&& deadline is Recv
                    } else {
                        match stage {
                            Reading::SegmentCount => count_step(self.endpoint(), s, final(input)@, r),
                            Reading::SegmentTable(count) => table_step(
                                self.endpoint(),
                                s,
                                final(input)@,
                                count,
                                options,
                                r,
                            ),
                            Reading::Segments(total_words, slices) => {
                                &&& final(input)@ == s.subrange(8 * total_words, s.len() as int)
                                &&& r matches ReadOutcome::Received(fsm, message)
                                &&& fsm == self.endpoint()
                                &&& message.slices() == slices@
                                &&& message.space() == s.subrange(0, 8 * total_words)
                            },
                        }
                    },
                    _ => true,
                }
            }),
    {
        proof {
            use_type_invariant(&self);
        }
        let Capnp { fsm, state } = self;
        match state {
            CapnpState::Idle => {
                if input.len() < 4 {
                    ReadOutcome::Continue(
                        Capnp::wait(fsm, CapnpState::Idle, Expectation::Bytes(4), Deadline::Idle),
                    )
                } else {
                    Capnp::read_count(fsm, input)
                }
            },
            CapnpState::Reading(Reading::SegmentCount) => {
                if input.len() < 4 {
                    ReadOutcome::Continue(
                        Capnp::wait(
                            fsm,
                            CapnpState::Reading(Reading::SegmentCount),
                            Expectation::Bytes(4),
                            Deadline::Recv,
                        ),
                    )
                } else {
                    Capnp::read_count(fsm, input)
                }
            },
            CapnpState::Reading(Reading::SegmentTable(count)) => {
                let needed = 4 * count + if count % 2 == 0 { 4 } else { 0 };
                if input.len() < needed {
                    ReadOutcome::Continue(
                        Capnp::wait(
                            fsm,
                            CapnpState::Reading(Reading::SegmentTable(count)),
                            Expectation::Bytes(needed),
                            Deadline::Recv,
                        ),
                    )
                } else {
                    Capnp::read_table(fsm, input, count, options)
                }
            },
            CapnpState::Reading(Reading::Segments(total_words, slices)) => {
                if input.len() < 8 * total_words {
                    ReadOutcome::Continue(
                        Capnp::wait(
                            fsm,
                            CapnpState::Reading(Reading::Segments(total_words, slices)),
                            Expectation::Bytes(8 * total_words),
                            Deadline::Recv,
                        ),
                    )
                } else {
                    let message = read_segments(input, total_words, slices);
                    ReadOutcome::Received(fsm, message)
                }
            },
            CapnpState::Writing | CapnpState::Sleeping => unreached(),
        }
    }

    /// Hands the endpoint back once the outgoing bytes are written, for its
    /// `message_flushed`.
    pub fn bytes_flushed(self) -> (r: E)
        requires
            self.phase() is Writing,
        ensures
            r == self.endpoint(),
    {
        self.fsm
    }

    /// Hands the endpoint back with the phase whose deadline elapsed, for
    /// its `timeout`.
    pub fn timeout(self) -> (r: (E, ConnectionState))
        ensures
            r.0 == self.endpoint(),
            r.1 == match self.phase() {
                CapnpState::Idle => ConnectionState::Idle,
                CapnpState::Reading(_) => ConnectionState::Receiving,
                CapnpState::Writing => ConnectionState::Sending,
                CapnpState::Sleeping => ConnectionState::Sleeping,
            },
    {
        let state = match self.state {
            CapnpState::Idle => ConnectionState::Idle,
            CapnpState::Reading(_) => ConnectionState::Receiving,
            CapnpState::Writing => ConnectionState::Sending,
            CapnpState::Sleeping => ConnectionState::Sleeping,
        };
        (self.fsm, state)
    }

    /// Hands the endpoint back on an outside wakeup, for its `wakeup`.
    pub fn wakeup(self) -> (r: E)
        ensures
            r == self.endpoint(),
    {
        self.fsm
    }

    /// Decides whether a stream failure is reported to the endpoint before
    /// the connection closes, given how many input bytes are `buffered`. The
    /// end of the stream is reported only in the middle of a message: while
    /// reading, or idle with part of a header buffered. Every other failure
    /// is always reported.
    pub fn exception(self, reason: Exception, buffered: usize) -> (r: Option<(E, Error)>)
        requires
            !(reason is LimitReached),
        ensures
            ({
                let mid_frame = self.phase() is Reading || (self.phase() is Idle && buffered > 0);
                match r {
                    Some((fsm, err)) => fsm == self.endpoint() && err == Error::Stream(reason) && (
                    !(reason is EndOfStream) || mid_frame),
                    None => reason is EndOfStream && !mid_frame,
                }
            }),
    {
        match reason {
            Exception::EndOfStream => {
                match self.state {
                    CapnpState::Reading(_) => Some((self.fsm, Error::Stream(reason))),
                    CapnpState::Idle => if buffered > 0 {
                        Some((self.fsm, Error::Stream(reason)))
                    } else {
                        None
                    },
                    _ => None,
                }
            },
            _ => Some((self.fsm, Error::Stream(reason))),
        }
    }
}

} // verus!
