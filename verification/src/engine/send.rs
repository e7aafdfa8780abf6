//! Sending one object on a data stream: frame it, write it, flush it, each in its time.

use super::frame::{frame, framed, serialize_object, FrameError};
use crate::buffer::has_room;
use crate::proto::{MoqObject, ObjectView};
use vstd::prelude::*;
use vstd::utf8::encode_utf8;

verus! {

/// Seconds that writing an object may take.
pub const OBJECT_SEND_TIMEOUT: u64 = 5;

/// Seconds that flushing the stream may take.
pub const OBJECT_FLUSH_TIMEOUT: u64 = 2;

/// How writing or flushing came out.
#[derive(Debug, Clone, Copy, PartialEq, Eq, Structural)]
pub enum IoOutcome {
    Done,
    Failed,
    TimedOut,
}

/// Why an object was not sent.
#[derive(Debug, Clone, Copy, PartialEq, Eq, Structural)]
pub enum SendError {
    /// It could not be framed.
    Frame(FrameError),
    WriteFailed,
    WriteTimedOut,
    FlushFailed,
    FlushTimedOut,
}

/// What is to be done next to send an object.
#[derive(Debug)]
pub enum SendStep {
    /// Write these bytes, within the time for writing.
    Write(Vec<u8>),
    /// Flush the stream, within the time for flushing.
    Flush,
    /// Nothing: the object is sent.
    Sent,
    /// Nothing: the object is lost.
    Lost(SendError),
}

/// Whether a step is the right one to begin with.
pub open spec fn is_first_step(o: ObjectView, step: SendStep) -> bool {
    match framed(o) {
        Ok(b) => step matches SendStep::Write(bytes) && bytes@ == b,
        Err(e) => step == SendStep::Lost(SendError::Frame(e)),
    }
}

/// Whether a step is the right one behind an attempt to write.
pub open spec fn is_step_behind_write(outcome: IoOutcome, step: SendStep) -> bool {
    match outcome {
        IoOutcome::Done => step is Flush,
        IoOutcome::Failed => step == SendStep::Lost(SendError::WriteFailed),
        IoOutcome::TimedOut => step == SendStep::Lost(SendError::WriteTimedOut),
    }
}

/// Whether a step is the right one behind an attempt to flush.
pub open spec fn is_step_behind_flush(outcome: IoOutcome, step: SendStep) -> bool {
    match outcome {
        IoOutcome::Done => step is Sent,
        IoOutcome::Failed => step == SendStep::Lost(SendError::FlushFailed),
        IoOutcome::TimedOut => step == SendStep::Lost(SendError::FlushTimedOut),
    }
}

/// Begins to send an object.
pub fn send_object(object: &MoqObject) -> (step: SendStep)
    requires
        has_room(encode_utf8(object.name@).len() + object.data@.len(), 31),
    ensures
        is_first_step(object@, step),
        match framed(object@) {
            Ok(b) => step matches SendStep::Write(bytes) && bytes@ == b,
            Err(e) => step == SendStep::Lost(SendError::Frame(e)),
        },
        step is Write <==> encode_utf8(object.name@).len() <= 65_535 && 27 + encode_utf8(
            object.name@,
        ).len() + object.data@.len() <= 4_294_967_295,
{
    match serialize_object(object) {
        Ok(bytes) => SendStep::Write(bytes),
        Err(e) => SendStep::Lost(SendError::Frame(e)),
    }
}

/// Goes on after the attempt to write.
pub fn after_write(outcome: IoOutcome) -> (step: SendStep)
    ensures
        is_step_behind_write(outcome, step),
        match outcome {
            IoOutcome::Done => step is Flush,
            IoOutcome::Failed => step == SendStep::Lost(SendError::WriteFailed),
            IoOutcome::TimedOut => step == SendStep::Lost(SendError::WriteTimedOut),
        },
{
    match outcome {
        IoOutcome::Done => SendStep::Flush,
        IoOutcome::Failed => SendStep::Lost(SendError::WriteFailed),
        IoOutcome::TimedOut => SendStep::Lost(SendError::WriteTimedOut),
    }
}

/// Goes on after the attempt to flush.
pub fn after_flush(outcome: IoOutcome) -> (step: SendStep)
    ensures
        is_step_behind_flush(outcome, step),
        match outcome {
            IoOutcome::Done => step is Sent,
            IoOutcome::Failed => step == SendStep::Lost(SendError::FlushFailed),
            IoOutcome::TimedOut => step == SendStep::Lost(SendError::FlushTimedOut),
        },
{
    match outcome {
        IoOutcome::Done => SendStep::Sent,
        IoOutcome::Failed => SendStep::Lost(SendError::FlushFailed),
        IoOutcome::TimedOut => SendStep::Lost(SendError::FlushTimedOut),
    }
}

/// Law: an object is sent if and only if it was framed, its frame was written, and the stream was
/// flushed, in this order and each in its time. What is written is its frame. Every other way ends
/// with the object lost, for the reason that stopped it.
pub proof fn law_sent_only_when_written_and_flushed(
    o: ObjectView,
    begin: SendStep,
    writing: IoOutcome,
    written: SendStep,
    flushing: IoOutcome,
    flushed: SendStep,
)
    requires
        is_first_step(o, begin),
        is_step_behind_write(writing, written),
        is_step_behind_flush(flushing, flushed),
    ensures
        begin is Write <==> encode_utf8(o.name).len() <= 65_535 && 27 + encode_utf8(o.name).len()
            + o.data.len() <= 4_294_967_295,
        begin matches SendStep::Write(bytes) ==> bytes@ == frame(o),
        !(begin is Write) ==> (begin matches SendStep::Lost(e) && e is Frame),
        written is Flush <==> writing is Done,
        writing is Failed ==> written == SendStep::Lost(SendError::WriteFailed),
        writing is TimedOut ==> written == SendStep::Lost(SendError::WriteTimedOut),
        flushed is Sent <==> flushing is Done,
        flushing is Failed ==> flushed == SendStep::Lost(SendError::FlushFailed),
        flushing is TimedOut ==> flushed == SendStep::Lost(SendError::FlushTimedOut),
{
    super::frame::law_framed_where_it_fits(o);
}

/// Law: writing may take five seconds and flushing two.
pub proof fn law_time_limits()
    ensures
        OBJECT_SEND_TIMEOUT == 5,
        OBJECT_FLUSH_TIMEOUT == 2,
{
}

} // verus!
