//! The deterministic core of a peer-to-peer media streaming protocol in the style of
//! Media over QUIC: message codecs, the state machines of publisher and subscriber, and the
//! retransmission buffer. Networking, clocks and logging live in the application around it.

pub mod audio;
pub mod buffer;
pub mod engine;
pub mod ids;
pub mod proto;
pub mod protocol;
pub mod retransmission_buffer;
pub mod subscriber;
pub mod text;
pub mod video;
pub mod wire;
