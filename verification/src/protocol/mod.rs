//! The protocol handler: what a node does with the streams of a connection, and what it
//! publishes.

pub mod config;
pub mod control;
pub mod http;
pub mod publish;
pub mod streams;

pub use config::{Builder, MoqIrohConfig};
pub use control::{
    next_control_message, process_control_messages, respond, ControlAction, ControlMessage,
    ControlStep,
};
pub use http::{
    error_response, ok_response_header, requested_file, HttpError, HttpRequest, HttpResponse,
};
pub use publish::{
    audio_announcement, audio_init_object, video_announcement, video_init_object, AudioPublisher,
    ChunkPublisher,
};
pub use streams::{
    data_stream_header, namespace_length, read_data_stream_header, stream_type, StreamType,
    STREAM_TYPE_CONTROL, STREAM_TYPE_DATA, STREAM_TYPE_HTTP,
};
