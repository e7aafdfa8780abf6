# iroh-moq

Real-time media streaming between peers, in the style of Media over QUIC. Nodes publish and
subscribe to streams of named objects over Iroh: streams are announced by gossip, control
messages and objects travel on QUIC streams, late subscribers get the latest objects, and lost
objects can be asked for again.

- `src/` is the library: everything that a node decides and computes, written in Verus and proved
  against its contracts.
  - `proto/`: control messages, objects with metadata, media chunks, announcements
  - `engine/`: namespaces, the registry of streams, the actor behind a stream, frames, sending,
    the state of the connection
  - `subscriber/`: reading frames and confirmations, the actor behind a subscription
  - `protocol/`: what a node does with a control stream, a data stream and a request for a file,
    and what it publishes
  - `retransmission_buffer.rs`: a bounded buffer of objects, by age or by priority
  - `video.rs`, `audio.rs`: from frames to chunks
  - `wire.rs`, `text.rs`, `ids.rs`, `buffer.rs`: numbers, text, identifiers and byte buffers
- `app/` is the networking around it: endpoints, gossip, tasks, files, clocks and JSON.
- `tests/` runs the library.

Proof functions whose names start with `law_` state what holds of the library as a whole.
