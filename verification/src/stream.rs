//! How a stream of audio chunks is steered by the one who receives it.

use vstd::prelude::*;

verus! {

/// What the receiver of a chunk answers.
#[derive(Debug, Clone, Copy, PartialEq, Eq, Structural)]
pub enum StreamControlCode {
    /// Go on with the next chunk.
    Proceed,
    /// Enough: end the stream.
    Stop,
    /// Anything else.
    Unknown,
}

impl StreamControlCode {
    /// The code a byte stands for.
    pub open spec fn of(byte: u8) -> StreamControlCode {
        if byte == 0 {
            StreamControlCode::Proceed
        } else if byte == 1 {
            StreamControlCode::Stop
        } else {
            StreamControlCode::Unknown
        }
    }

    /// Reads a code from the byte it travels as: 0 is `Proceed`, 1 is
    /// `Stop`, every other byte is `Unknown`.
    pub fn from_primitive(byte: u8) -> (code: StreamControlCode)
        ensures
            code == StreamControlCode::of(byte),
    {
        if byte == 0 {
            StreamControlCode::Proceed
        } else if byte == 1 {
            StreamControlCode::Stop
        } else {
            StreamControlCode::Unknown
        }
    }

    /// The byte a code travels as. Reading it back gives the code again.
    pub fn to_primitive(self) -> (byte: u8)
        ensures
            byte == (match self {
                StreamControlCode::Proceed => 0u8,
                StreamControlCode::Stop => 1u8,
                StreamControlCode::Unknown => 2u8,
            }),
            StreamControlCode::of(byte) == self,
    {
        match self {
            StreamControlCode::Proceed => 0,
            StreamControlCode::Stop => 1,
            StreamControlCode::Unknown => 2,
        }
    }
}

/// What has just happened to a stream.
#[derive(Debug, Clone, Copy, PartialEq, Eq, Structural)]
pub enum StreamEvent {
    /// A chunk was handed to the receiver, who answered with this code.
    Delivered(StreamControlCode),
    /// The next chunk could not be produced or converted.
    ChunkFailed,
    /// There are no more chunks.
    Exhausted,
}

/// What to do with a stream next.
#[derive(Debug, Clone, Copy, PartialEq, Eq, Structural)]
pub enum StreamAction {
    /// Produce the next chunk.
    Continue,
    /// Tell the receiver that the stream has ended, and stop.
    Finish,
    /// Tell the receiver that the stream has failed, and stop.
    Fail,
}

/// Decides how a stream goes on. It continues only while the receiver
/// answers `Proceed`; it ends in good order when the receiver says `Stop`
/// or the chunks run out; anything else is a failure.
pub fn next_action(event: StreamEvent) -> (action: StreamAction)
    ensures
        action == (match event {
            StreamEvent::Delivered(StreamControlCode::Proceed) => StreamAction::Continue,
            StreamEvent::Delivered(StreamControlCode::Stop) => StreamAction::Finish,
            StreamEvent::Delivered(StreamControlCode::Unknown) => StreamAction::Fail,
            StreamEvent::ChunkFailed => StreamAction::Fail,
            StreamEvent::Exhausted => StreamAction::Finish,
        }),
{
    match event {
        StreamEvent::Delivered(StreamControlCode::Proceed) => StreamAction::Continue,
        StreamEvent::Delivered(StreamControlCode::Stop) => StreamAction::Finish,
        StreamEvent::Delivered(StreamControlCode::Unknown) => StreamAction::Fail,
        StreamEvent::ChunkFailed => StreamAction::Fail,
        StreamEvent::Exhausted => StreamAction::Finish,
    }
}

} // verus!
