//! The subscribing side: reading frames and confirmations, and the actor that drives a
//! subscription.

pub mod actor;
pub mod control;
pub mod frame;

pub use actor::{
    object_to_video_chunk, SubscriberAction, SubscriberActor, SubscriberCommand, SubscriberEvent,
    SubscriberState,
};
pub use control::take_confirmations;
pub use frame::{deserialize_object, drain_objects, frame_is_readable, Drained};
