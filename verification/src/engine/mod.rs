//! The engine of a publishing node: names of streams, the actor behind each stream, the frames
//! that it sends, and the state of the connection.

pub mod actor;
pub mod connection;
pub mod frame;
pub mod namespace;
pub mod registry;
pub mod send;

pub use actor::{Replay, StreamAction, StreamActorState, StreamCommand};
pub use connection::{ConnectionEvent, ConnectionState, ConnectionTracker};
pub use frame::serialize_object;
pub use namespace::normalize_namespace;
pub use registry::{Registration, Slot, StreamRegistry};
pub use send::{
    after_flush, after_write, send_object, IoOutcome, SendError, SendStep, OBJECT_FLUSH_TIMEOUT,
    OBJECT_SEND_TIMEOUT,
};
