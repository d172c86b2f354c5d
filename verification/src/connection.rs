//! The life of one connection as a state machine: what to do next, given
//! what the transport just did.
//!
//! The machine performs no I/O. Its owner reads and writes as the machine
//! asks and reports back what happened.

use vstd::prelude::*;
use crate::errors::{IoErrorKind, KafkaError};
use crate::frame::{
    answer_to, frame_length, frame_length_of, handle_frame, lemma_frame_length_of_prefix,
    LENGTH_WIDTH, MAX_FRAME_SIZE,
};
use crate::request::header_at;
use crate::writers::int32_bytes;

verus! {

/// Where a connection stands between two steps.
#[derive(Clone, Copy, Debug, PartialEq, Eq, Structural)]
pub enum ConnectionState {
    /// The length prefix of the next request is being read.
    AwaitingLength,
    /// A request frame of the given number of bytes is being read.
    AwaitingBody(usize),
    /// A response frame is being written.
    Writing,
    /// The connection is over.
    Closed,
}

/// What the transport did on the last request of the machine.
#[derive(Clone, Debug, PartialEq, Eq)]
pub enum Event {
    /// The bytes asked for were read.
    Received(Vec<u8>),
    /// The bytes handed over were written and flushed.
    Written,
    /// The read or the write failed.
    Failed(IoErrorKind),
}

/// What an [`Event`] stands for.
pub enum EventView {
    Received(Seq<u8>),
    Written,
    Failed(IoErrorKind),
}

impl View for Event {
    type V = EventView;

    open spec fn view(&self) -> EventView {
        match self {
            Event::Received(bytes) => EventView::Received(bytes@),
            Event::Written => EventView::Written,
            Event::Failed(kind) => EventView::Failed(*kind),
        }
    }
}

/// What the owner of the connection is to do next.
#[derive(Debug, PartialEq, Eq)]
pub enum Action {
    /// Read exactly this many bytes and report them.
    Read(usize),
    /// Write these bytes, flush, and report it.
    Write(Vec<u8>),
    /// Close the connection and end with this outcome.
    Close(Result<(), KafkaError>),
}

/// What an [`Action`] stands for.
pub enum ActionView {
    Read(usize),
    Write(Seq<u8>),
    Close(Result<(), KafkaError>),
}

impl View for Action {
    type V = ActionView;

    open spec fn view(&self) -> ActionView {
        match self {
            Action::Read(count) => ActionView::Read(*count),
            Action::Write(bytes) => ActionView::Write(bytes@),
            Action::Close(outcome) => ActionView::Close(*outcome),
        }
    }
}

/// The state that follows `state` on `event`, and the action to take.
///
/// - A failure of the transport closes the connection with that failure.
/// - A length prefix leads to the read of a frame of that length; one that
///   announces no acceptable length closes the connection with the failure
///   of [`frame_length_of`], and nothing more is read or written.
/// - A request frame leads to the write of its answer; one whose header
///   does not decode closes the connection, with no answer and no failure.
///   Fewer or more bytes than were asked for count as an unexpected end.
/// - A finished write leads to the read of the next length prefix.
/// - A closed connection stays closed; an event that the state did not ask
///   for closes the connection as a failure of the transport.
pub open spec fn next_step(state: ConnectionState, event: EventView) -> (
    ConnectionState,
    ActionView,
) {
    match (state, event) {
        (ConnectionState::Closed, _) => (ConnectionState::Closed, ActionView::Close(Ok(()))),
        (_, EventView::Failed(kind)) => (
            ConnectionState::Closed,
            ActionView::Close(Err(KafkaError::Io(kind))),
        ),
        (ConnectionState::AwaitingLength, EventView::Received(prefix)) => match frame_length_of(
            prefix,
        ) {
            Ok(length) => (
                ConnectionState::AwaitingBody(length as usize),
                ActionView::Read(length as usize),
            ),
            Err(error) => (ConnectionState::Closed, ActionView::Close(Err(error))),
        },
        (ConnectionState::AwaitingBody(length), EventView::Received(frame)) => if frame.len()
            != length {
            (
                ConnectionState::Closed,
                ActionView::Close(Err(KafkaError::Io(IoErrorKind::UnexpectedEof))),
            )
        } else {
            match answer_to(frame) {
                Some(answer) => (ConnectionState::Writing, ActionView::Write(answer)),
                None => (ConnectionState::Closed, ActionView::Close(Ok(()))),
            }
        },
        (ConnectionState::Writing, EventView::Written) => (
            ConnectionState::AwaitingLength,
            ActionView::Read(LENGTH_WIDTH),
        ),
        _ => (
            ConnectionState::Closed,
            ActionView::Close(Err(KafkaError::Io(IoErrorKind::Other))),
        ),
    }
}

impl ConnectionState {
    /// The state of a fresh connection, and its first action: the read of a
    /// length prefix.
    pub fn start() -> (first: (ConnectionState, Action))
        ensures
            first.0 == ConnectionState::AwaitingLength,
            first.1@ == ActionView::Read(LENGTH_WIDTH),
    {
        (ConnectionState::AwaitingLength, Action::Read(LENGTH_WIDTH))
    }

    /// Takes one step: from this state, on `event`, to the next state and
    /// the action to take.
    pub fn step(self, event: Event) -> (next: (ConnectionState, Action))
        ensures
            next.0 == next_step(self, event@).0,
            next.1@ == next_step(self, event@).1,
    {
        match self {
            ConnectionState::Closed => (ConnectionState::Closed, Action::Close(Ok(()))),
            ConnectionState::AwaitingLength => match event {
                Event::Failed(kind) => (
                    ConnectionState::Closed,
                    Action::Close(Err(KafkaError::Io(kind))),
                ),
                Event::Received(prefix) => match frame_length(prefix.as_slice()) {
                    Ok(length) => (ConnectionState::AwaitingBody(length), Action::Read(length)),
                    Err(error) => (ConnectionState::Closed, Action::Close(Err(error))),
                },
                Event::Written => (
                    ConnectionState::Closed,
                    Action::Close(Err(KafkaError::Io(IoErrorKind::Other))),
                ),
            },
            ConnectionState::AwaitingBody(length) => match event {
                Event::Failed(kind) => (
                    ConnectionState::Closed,
                    Action::Close(Err(KafkaError::Io(kind))),
                ),
                Event::Received(frame) => if frame.len() != length {
                    (
                        ConnectionState::Closed,
                        Action::Close(Err(KafkaError::Io(IoErrorKind::UnexpectedEof))),
                    )
                } else {
                    match handle_frame(frame.as_slice()) {
                        Some(answer) => (ConnectionState::Writing, Action::Write(answer)),
                        None => (ConnectionState::Closed, Action::Close(Ok(()))),
                    }
                },
                Event::Written => (
                    ConnectionState::Closed,
                    Action::Close(Err(KafkaError::Io(IoErrorKind::Other))),
                ),
            },
            ConnectionState::Writing => match event {
                Event::Failed(kind) => (
                    ConnectionState::Closed,
                    Action::Close(Err(KafkaError::Io(kind))),
                ),
                Event::Written => (ConnectionState::AwaitingLength, Action::Read(LENGTH_WIDTH)),
                Event::Received(_) => (
                    ConnectionState::Closed,
                    Action::Close(Err(KafkaError::Io(IoErrorKind::Other))),
                ),
            },
        }
    }
}

/// A length prefix that is not positive, or greater than
/// [`MAX_FRAME_SIZE`], closes the connection with an invalid-length failure:
/// no byte of a body is asked for, and nothing is written.
pub proof fn lemma_bad_length_closes(length: i32)
    requires
        length <= 0 || length > MAX_FRAME_SIZE,
    ensures
        next_step(ConnectionState::AwaitingLength, EventView::Received(int32_bytes(length))) == (
            ConnectionState::Closed,
            ActionView::Close(Err(KafkaError::InvalidMessageLength(length))),
        ),
{
    lemma_frame_length_of_prefix(length);
}

/// A length prefix in range leads to the read of exactly that many bytes.
pub proof fn lemma_good_length_reads_body(length: i32)
    requires
        0 < length <= MAX_FRAME_SIZE,
    ensures
        next_step(ConnectionState::AwaitingLength, EventView::Received(int32_bytes(length))) == (
            ConnectionState::AwaitingBody(length as usize),
            ActionView::Read(length as usize),
        ),
{
    lemma_frame_length_of_prefix(length);
}

/// Nothing is ever written but the answer to a whole request frame.
pub proof fn lemma_only_answers_are_written(state: ConnectionState, event: EventView)
    ensures
        next_step(state, event).1 matches ActionView::Write(bytes) ==> {
            &&& state matches ConnectionState::AwaitingBody(length)
            &&& event matches EventView::Received(frame)
            &&& frame.len() == length
            &&& answer_to(frame) == Some(bytes)
            &&& next_step(state, event).0 == ConnectionState::Writing
        },
{
}

/// A closed connection stays closed: it asks for no read and no write.
pub proof fn lemma_closed_stays_closed(event: EventView)
    ensures
        next_step(ConnectionState::Closed, event) == (
            ConnectionState::Closed,
            ActionView::Close(Ok(())),
        ),
{
}

/// A request whose header decodes is always answered, and after the answer
/// is written the connection waits for the next request: a request that is
/// refused, or whose body does not decode, does not close the connection.
pub proof fn lemma_answered_request_keeps_connection(frame: Seq<u8>)
    requires
        frame.len() <= usize::MAX,
        header_at(frame, 0) is Ok,
    ensures
        answer_to(frame) is Some,
        next_step(
            ConnectionState::AwaitingBody(frame.len() as usize),
            EventView::Received(frame),
        ) == (ConnectionState::Writing, ActionView::Write(answer_to(frame)->0)),
        next_step(ConnectionState::Writing, EventView::Written) == (
            ConnectionState::AwaitingLength,
            ActionView::Read(LENGTH_WIDTH),
        ),
{
}

} // verus!
