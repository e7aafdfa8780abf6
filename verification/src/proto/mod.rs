//! The vocabulary of the protocol: constants, media objects, announcements.

pub mod announce;
pub mod control;
pub mod media;
pub mod object;

pub use announce::{
    search_step, topic_hash, MoqRelay, SearchStep, StreamAnnouncement, ANNOUNCEMENT_WAIT,
};
pub use control::{
    deserialize_cancel, deserialize_heartbeat, deserialize_request, deserialize_subscribe,
    deserialize_subscribe_ok, deserialize_terminate, deserialize_unsubscribe, serialize_cancel,
    serialize_heartbeat, serialize_request, serialize_subscribe, serialize_subscribe_ok,
    serialize_terminate, serialize_unsubscribe,
};
pub use media::{AudioChunk, AudioInit, MediaInit, VideoChunk};
pub use object::{deserialize_object, object_is_readable, serialize_object};

use crate::text::{push_hex, push_text, Utf8Fault};
use vstd::prelude::*;

verus! {

pub const TYPE_SUBSCRIBE: u8 = 0x01;

pub const TYPE_UNSUBSCRIBE: u8 = 0x02;

pub const TYPE_CANCEL: u8 = 0x03;

pub const TYPE_REQUEST: u8 = 0x04;

pub const TYPE_TERMINATE: u8 = 0x05;

pub const TYPE_HEARTBEAT: u8 = 0x06;

pub const TYPE_ANNOUNCE: u8 = 0x07;

pub const TYPE_SUBSCRIBE_OK: u8 = 0x08;

pub const TYPE_OBJECT: u8 = 0x10;

/// Termination without a fault.
pub const REASON_NORMAL: u8 = 0;

/// Termination because of an error.
pub const REASON_ERROR: u8 = 1;

pub const MEDIA_TYPE_INIT: u8 = 0x00;

pub const MEDIA_TYPE_VIDEO: u8 = 0x01;

pub const MEDIA_TYPE_AUDIO: u8 = 0x02;

/// Group number that marks the end of a segment within a stream.
pub const MEDIA_TYPE_EOF: u32 = 0xffff_ffff;

/// The protocol name that peers negotiate when they connect: `iroh-moq/v1`.
pub const ALPN: [u8; 11] = [0x69, 0x72, 0x6f, 0x68, 0x2d, 0x6d, 0x6f, 0x71, 0x2f, 0x76, 0x31];

/// The gossip topic on which streams are announced: `moq-iroh-announce`.
pub const ANNOUNCE_TOPIC: [u8; 17] = [
    0x6d, 0x6f, 0x71, 0x2d, 0x69, 0x72, 0x6f, 0x68, 0x2d, 0x61, 0x6e, 0x6e, 0x6f, 0x75, 0x6e, 0x63,
    0x65,
];

/// Why a message could not be read.
#[derive(Debug, Clone, Copy, PartialEq, Eq, Structural)]
pub enum ProtoError {
    /// Another message type than that of an object.
    InvalidMessageType(u8),
    /// Incomplete SUBSCRIBE message header.
    IncompleteSubscribeHeader,
    /// Incomplete SUBSCRIBE message body.
    IncompleteSubscribeBody,
    /// Incomplete UNSUBSCRIBE message.
    IncompleteUnsubscribe,
    /// Incomplete namespace.
    IncompleteNamespace,
    /// Incomplete CANCEL message.
    IncompleteCancel,
    /// Incomplete REQUEST message.
    IncompleteRequest,
    /// Incomplete namespace or sequence.
    IncompleteNamespaceOrSequence,
    /// Incomplete TERMINATE message.
    IncompleteTerminate,
    /// Incomplete HEARTBEAT message.
    IncompleteHeartbeat,
    /// Incomplete SUBSCRIBE_OK message.
    IncompleteSubscribeOk,
    /// A text that is not UTF-8.
    InvalidUtf8(Utf8Fault),
    /// Buffer too short for message length.
    NoMessageLength,
    /// Buffer too short for complete message.
    IncompleteMessage,
    /// Buffer too short for basic header.
    NoBasicHeader,
    /// Unexpected end of buffer in metadata.
    EndInMetadata,
    /// Missing length in TLV.
    NoTlvLength,
    /// Buffer too short for TLV value.
    ShortTlvValue,
    /// Buffer too short for payload length.
    NoPayloadLength,
    /// Buffer too short for payload.
    ShortPayload,
    /// Video chunk data too small.
    VideoChunkTooSmall,
    /// Invalid dependency sequence data.
    InvalidDependency,
    /// MoqObject is not audio.
    NotAudio,
    /// Audio chunk data too small.
    AudioChunkTooSmall,
}

impl ProtoError {
    /// The error in words.
    pub open spec fn text(self) -> Seq<char> {
        match self {
            ProtoError::InvalidMessageType(t) => "Invalid message type: 0x"@ + crate::text::hex(
                t as nat,
            ) + ", expected 0x"@ + crate::text::hex(TYPE_OBJECT as nat),
            ProtoError::IncompleteSubscribeHeader => "Incomplete SUBSCRIBE message header"@,
            ProtoError::IncompleteSubscribeBody => "Incomplete SUBSCRIBE message body"@,
            ProtoError::IncompleteUnsubscribe => "Incomplete UNSUBSCRIBE message"@,
            ProtoError::IncompleteNamespace => "Incomplete namespace"@,
            ProtoError::IncompleteCancel => "Incomplete CANCEL message"@,
            ProtoError::IncompleteRequest => "Incomplete REQUEST message"@,
            ProtoError::IncompleteNamespaceOrSequence => "Incomplete namespace or sequence"@,
            ProtoError::IncompleteTerminate => "Incomplete TERMINATE message"@,
            ProtoError::IncompleteHeartbeat => "Incomplete HEARTBEAT message"@,
            ProtoError::IncompleteSubscribeOk => "Incomplete SUBSCRIBE_OK message"@,
            ProtoError::InvalidUtf8(fault) => fault.text(),
            ProtoError::NoMessageLength => "Buffer too short for message length"@,
            ProtoError::IncompleteMessage => "Buffer too short for complete message"@,
            ProtoError::NoBasicHeader => "Buffer too short for basic header"@,
            ProtoError::EndInMetadata => "Unexpected end of buffer in metadata"@,
            ProtoError::NoTlvLength => "Missing length in TLV"@,
            ProtoError::ShortTlvValue => "Buffer too short for TLV value"@,
            ProtoError::NoPayloadLength => "Buffer too short for payload length"@,
            ProtoError::ShortPayload => "Buffer too short for payload"@,
            ProtoError::VideoChunkTooSmall => "Video chunk data too small"@,
            ProtoError::InvalidDependency => "Invalid dependency sequence data"@,
            ProtoError::NotAudio => "MoqObject is not audio"@,
            ProtoError::AudioChunkTooSmall => "Audio chunk data too small"@,
        }
    }

    /// The error in words.
    pub fn message(&self) -> (s: String)
        ensures
            s@ == self.text(),
    {
        let text = match self {
            ProtoError::InvalidMessageType(t) => {
                let mut s = "Invalid message type: 0x".to_string();
                push_hex(&mut s, *t as u64);
                push_text(&mut s, ", expected 0x");
                push_hex(&mut s, TYPE_OBJECT as u64);
                return s;
            },
            ProtoError::IncompleteSubscribeHeader => "Incomplete SUBSCRIBE message header",
            ProtoError::IncompleteSubscribeBody => "Incomplete SUBSCRIBE message body",
            ProtoError::IncompleteUnsubscribe => "Incomplete UNSUBSCRIBE message",
            ProtoError::IncompleteNamespace => "Incomplete namespace",
            ProtoError::IncompleteCancel => "Incomplete CANCEL message",
            ProtoError::IncompleteRequest => "Incomplete REQUEST message",
            ProtoError::IncompleteNamespaceOrSequence => "Incomplete namespace or sequence",
            ProtoError::IncompleteTerminate => "Incomplete TERMINATE message",
            ProtoError::IncompleteHeartbeat => "Incomplete HEARTBEAT message",
            ProtoError::IncompleteSubscribeOk => "Incomplete SUBSCRIBE_OK message",
            ProtoError::InvalidUtf8(fault) => return fault.message(),
            ProtoError::NoMessageLength => "Buffer too short for message length",
            ProtoError::IncompleteMessage => "Buffer too short for complete message",
            ProtoError::NoBasicHeader => "Buffer too short for basic header",
            ProtoError::EndInMetadata => "Unexpected end of buffer in metadata",
            ProtoError::NoTlvLength => "Missing length in TLV",
            ProtoError::ShortTlvValue => "Buffer too short for TLV value",
            ProtoError::NoPayloadLength => "Buffer too short for payload length",
            ProtoError::ShortPayload => "Buffer too short for payload",
            ProtoError::VideoChunkTooSmall => "Video chunk data too small",
            ProtoError::InvalidDependency => "Invalid dependency sequence data",
            ProtoError::NotAudio => "MoqObject is not audio",
            ProtoError::AudioChunkTooSmall => "Audio chunk data too small",
        };
        text.to_string()
    }
}

/// A named piece of media.
#[derive(Debug)]
pub struct MoqObject {
    /// For example `/live/video/chunk1`.
    pub name: String,
    /// Position in the stream.
    pub sequence: u64,
    /// Microseconds.
    pub timestamp: u64,
    /// The track that the object belongs to.
    pub group_id: u32,
    /// Higher is more urgent.
    pub priority: u8,
    /// The payload.
    pub data: Vec<u8>,
}

/// What an object holds, as mathematical values.
#[verifier::ext_equal]
pub struct ObjectView {
    pub name: Seq<char>,
    pub sequence: u64,
    pub timestamp: u64,
    pub group_id: u32,
    pub priority: u8,
    pub data: Seq<u8>,
}

impl View for MoqObject {
    type V = ObjectView;

    open spec fn view(&self) -> ObjectView {
        ObjectView {
            name: self.name@,
            sequence: self.sequence,
            timestamp: self.timestamp,
            group_id: self.group_id,
            priority: self.priority,
            data: self.data@,
        }
    }
}

/// What some objects hold.
pub open spec fn views(objects: Seq<MoqObject>) -> Seq<ObjectView> {
    objects.map_values(|o: MoqObject| o@)
}

impl Clone for MoqObject {
    fn clone(&self) -> (r: Self)
        ensures
            r@ == self@,
    {
        let data = self.data.clone();
        assert(data@ =~= self.data@);
        MoqObject {
            name: self.name.clone(),
            sequence: self.sequence,
            timestamp: self.timestamp,
            group_id: self.group_id,
            priority: self.priority,
            data,
        }
    }
}

/// Law: an object is shown with all that it holds.
pub proof fn law_object_is_shown(o: MoqObject)
    ensures
        o@.name == o.name@,
        o@.sequence == o.sequence,
        o@.timestamp == o.timestamp,
        o@.group_id == o.group_id,
        o@.priority == o.priority,
        o@.data == o.data@,
{
}

/// Law: some objects are shown one by one, each at its place.
pub proof fn law_objects_are_shown(objects: Seq<MoqObject>, i: int)
    requires
        0 <= i < objects.len(),
    ensures
        views(objects).len() == objects.len(),
        views(objects)[i] == objects[i]@,
{
}

/// Law: the words of each error.
pub proof fn law_words_of_each_error(t: u8, fault: Utf8Fault)
    ensures
        ProtoError::InvalidMessageType(t).text() == "Invalid message type: 0x"@ + crate::text::hex(
            t as nat,
        ) + ", expected 0x"@ + crate::text::hex(0x10),
        ProtoError::InvalidUtf8(fault).text() == fault.text(),
        ProtoError::IncompleteSubscribeHeader.text() == "Incomplete SUBSCRIBE message header"@,
        ProtoError::IncompleteSubscribeBody.text() == "Incomplete SUBSCRIBE message body"@,
        ProtoError::IncompleteUnsubscribe.text() == "Incomplete UNSUBSCRIBE message"@,
        ProtoError::IncompleteNamespace.text() == "Incomplete namespace"@,
        ProtoError::IncompleteCancel.text() == "Incomplete CANCEL message"@,
        ProtoError::IncompleteRequest.text() == "Incomplete REQUEST message"@,
        ProtoError::IncompleteNamespaceOrSequence.text() == "Incomplete namespace or sequence"@,
        ProtoError::IncompleteTerminate.text() == "Incomplete TERMINATE message"@,
        ProtoError::IncompleteHeartbeat.text() == "Incomplete HEARTBEAT message"@,
        ProtoError::IncompleteSubscribeOk.text() == "Incomplete SUBSCRIBE_OK message"@,
        ProtoError::NoMessageLength.text() == "Buffer too short for message length"@,
        ProtoError::IncompleteMessage.text() == "Buffer too short for complete message"@,
        ProtoError::NoBasicHeader.text() == "Buffer too short for basic header"@,
        ProtoError::EndInMetadata.text() == "Unexpected end of buffer in metadata"@,
        ProtoError::NoTlvLength.text() == "Missing length in TLV"@,
        ProtoError::ShortTlvValue.text() == "Buffer too short for TLV value"@,
        ProtoError::NoPayloadLength.text() == "Buffer too short for payload length"@,
        ProtoError::ShortPayload.text() == "Buffer too short for payload"@,
        ProtoError::VideoChunkTooSmall.text() == "Video chunk data too small"@,
        ProtoError::InvalidDependency.text() == "Invalid dependency sequence data"@,
        ProtoError::NotAudio.text() == "MoqObject is not audio"@,
        ProtoError::AudioChunkTooSmall.text() == "Audio chunk data too small"@,
{
}

} // verus!
