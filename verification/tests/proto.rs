//! Messages, objects and media chunks from outside.

use bytes::{Buf, BufMut, BytesMut};
use iroh_moq::ids::{NodeId, StreamId};
use iroh_moq::proto::{
    deserialize_cancel, deserialize_heartbeat, deserialize_object, deserialize_request,
    deserialize_subscribe, deserialize_subscribe_ok, deserialize_terminate,
    deserialize_unsubscribe, object_is_readable, search_step, serialize_cancel, serialize_heartbeat, serialize_object,
    serialize_request, serialize_subscribe, serialize_subscribe_ok, serialize_terminate,
    serialize_unsubscribe, topic_hash, AudioChunk, MoqObject, ProtoError, SearchStep, StreamAnnouncement,
    VideoChunk, ALPN, ANNOUNCE_TOPIC, MEDIA_TYPE_AUDIO, MEDIA_TYPE_EOF, MEDIA_TYPE_INIT,
    MEDIA_TYPE_VIDEO, REASON_ERROR, REASON_NORMAL, TYPE_CANCEL, TYPE_HEARTBEAT,
    TYPE_OBJECT, TYPE_REQUEST, TYPE_SUBSCRIBE, TYPE_SUBSCRIBE_OK, TYPE_TERMINATE,
    TYPE_UNSUBSCRIBE,
};
use iroh_moq::text::Utf8Fault;
use uuid::Uuid;

fn new_id() -> StreamId {
    StreamId { bytes: Uuid::new_v4().into_bytes() }
}

#[test]
fn test_subscribe_message_serialization() {
    let stream_id = new_id();
    let namespace = "/test/namespace";
    let start_sequence = 42;
    let group_id = MEDIA_TYPE_VIDEO as u32;
    let priority = 128;

    // Serialize
    let serialized = serialize_subscribe(stream_id, namespace, start_sequence, group_id, priority);
    assert_eq!(serialized[0], TYPE_SUBSCRIBE);

    // Deserialize
    let mut buffer = serialized;
    let (des_stream_id, des_namespace, des_start_seq, des_group_id, des_priority) =
        deserialize_subscribe(&mut buffer).unwrap();

    assert_eq!(stream_id, des_stream_id);
    assert_eq!(namespace, des_namespace);
    assert_eq!(start_sequence, des_start_seq);
    assert_eq!(group_id, des_group_id);
    assert_eq!(priority, des_priority);
}

#[test]
fn test_subscribe_message_edge_cases() {
    // Test with empty namespace
    let stream_id = new_id();
    let serialized = serialize_subscribe(stream_id, "", 0, 0, 0);
    let mut buffer = serialized;
    let result = deserialize_subscribe(&mut buffer).unwrap();
    assert_eq!(result.1, "");

    // Test with max values
    let serialized = serialize_subscribe(stream_id, "test", u64::MAX, u32::MAX, u8::MAX);
    let mut buffer = serialized;
    let result = deserialize_subscribe(&mut buffer).unwrap();
    assert_eq!(result.2, u64::MAX);
    assert_eq!(result.3, u32::MAX);
    assert_eq!(result.4, u8::MAX);
}

#[test]
fn test_subscribe_message_incomplete() {
    // Test with incomplete header
    let mut buffer = BytesMut::new();
    buffer.put_u8(TYPE_SUBSCRIBE);
    buffer.put_u8(10); // namespace length but no more data
    let result = deserialize_subscribe(&mut buffer);
    assert!(result.is_err());

    // Test with incomplete body
    let mut buffer = BytesMut::new();
    buffer.put_u8(TYPE_SUBSCRIBE);
    buffer.put_u16(5);
    buffer.extend_from_slice(&new_id().bytes);
    buffer.extend_from_slice(b"test"); // Missing one byte
    let result = deserialize_subscribe(&mut buffer);
    assert!(result.is_err());
}

#[test]
fn test_unsubscribe_message_serialization() {
    let stream_id = new_id();
    let namespace = "/test/stream";

    // Serialize
    let serialized = serialize_unsubscribe(stream_id, namespace);
    assert_eq!(serialized[0], TYPE_UNSUBSCRIBE);

    // Deserialize
    let mut buffer = serialized;
    let (des_stream_id, des_namespace) = deserialize_unsubscribe(&mut buffer).unwrap();
    assert_eq!(stream_id, des_stream_id);
    assert_eq!(namespace, des_namespace);
}

#[test]
fn test_cancel_message_serialization() {
    let sequence = 12345;

    // Serialize
    let serialized = serialize_cancel(sequence);
    assert_eq!(serialized[0], TYPE_CANCEL);

    // Deserialize
    let mut buffer = serialized;
    let des_sequence = deserialize_cancel(&mut buffer).unwrap();
    assert_eq!(sequence, des_sequence);
}

#[test]
fn test_request_message_serialization() {
    let stream_id = new_id();
    let namespace = "/test/request";
    let sequence = 99999;

    // Serialize
    let serialized = serialize_request(stream_id, namespace, sequence);
    assert_eq!(serialized[0], TYPE_REQUEST);

    // Deserialize
    let mut buffer = serialized;
    let (des_stream_id, des_namespace, des_sequence) = deserialize_request(&mut buffer).unwrap();
    assert_eq!(stream_id, des_stream_id);
    assert_eq!(namespace, des_namespace);
    assert_eq!(sequence, des_sequence);
}

#[test]
fn test_terminate_message_serialization() {
    // Test normal termination
    let serialized = serialize_terminate(REASON_NORMAL);
    assert_eq!(serialized[0], TYPE_TERMINATE);
    let mut buffer = serialized;
    let reason = deserialize_terminate(&mut buffer).unwrap();
    assert_eq!(reason, REASON_NORMAL);

    // Test error termination
    let serialized = serialize_terminate(REASON_ERROR);
    let mut buffer = serialized;
    let reason = deserialize_terminate(&mut buffer).unwrap();
    assert_eq!(reason, REASON_ERROR);
}

#[test]
fn test_heartbeat_message_serialization() {
    let timestamp = 1234567890123456;

    // Serialize
    let serialized = serialize_heartbeat(timestamp);
    assert_eq!(serialized[0], TYPE_HEARTBEAT);

    // Deserialize
    let mut buffer = serialized;
    let des_timestamp = deserialize_heartbeat(&mut buffer).unwrap();
    assert_eq!(timestamp, des_timestamp);
}

#[test]
fn test_subscribe_ok_message_serialization() {
    let stream_id = new_id();

    // Serialize
    let serialized = serialize_subscribe_ok(stream_id);
    assert_eq!(serialized[0], TYPE_SUBSCRIBE_OK);

    // Deserialize
    let mut buffer = serialized;
    let des_stream_id = deserialize_subscribe_ok(&mut buffer).unwrap();
    assert_eq!(stream_id, des_stream_id);
}

#[test]
fn test_moq_object_serialization() {
    let object = MoqObject {
        name: "/test/object".to_string(),
        sequence: 42,
        timestamp: 1234567890,
        group_id: MEDIA_TYPE_VIDEO as u32,
        priority: 255,
        data: vec![1, 2, 3, 4, 5],
    };

    // Serialize
    let serialized = serialize_object(&object);

    // Check the message has the length prefix
    let mut buffer = serialized;
    let total_length = (&buffer[..4]).get_u32() as usize;
    assert!(total_length > 0);
    buffer.advance(4);

    // Deserialize (create a new buffer with the message)
    let mut des_buffer = BytesMut::new();
    des_buffer.put_u32(total_length as u32);
    des_buffer.extend_from_slice(&buffer[..total_length]);

    let deserialized = deserialize_object(&mut des_buffer).unwrap();
    assert_eq!(object.name, deserialized.name);
    assert_eq!(object.sequence, deserialized.sequence);
    assert_eq!(object.timestamp, deserialized.timestamp);
    assert_eq!(object.group_id, deserialized.group_id);
    assert_eq!(object.priority, deserialized.priority);
    assert_eq!(object.data, deserialized.data);
}

#[test]
fn test_moq_object_type_flags() {
    // Test init segment
    let init_obj = MoqObject {
        name: "init".to_string(),
        sequence: 0,
        timestamp: 0,
        group_id: MEDIA_TYPE_INIT as u32,
        priority: 255,
        data: vec![1, 2, 3],
    };
    let serialized = serialize_object(&init_obj);
    assert_eq!(serialized[4], TYPE_OBJECT);
    assert_eq!(serialized[5], 0x01); // Init type flag

    // Test video keyframe
    let keyframe_obj = MoqObject {
        name: "keyframe".to_string(),
        sequence: 1,
        timestamp: 1000,
        group_id: MEDIA_TYPE_VIDEO as u32,
        priority: 255,
        data: vec![4, 5, 6],
    };
    let serialized = serialize_object(&keyframe_obj);
    assert_eq!(serialized[5], 0x02); // Keyframe type flag

    // Test video regular frame
    let regular_obj = MoqObject {
        name: "regular".to_string(),
        sequence: 2,
        timestamp: 2000,
        group_id: MEDIA_TYPE_VIDEO as u32,
        priority: 128,
        data: vec![7, 8, 9],
    };
    let serialized = serialize_object(&regular_obj);
    assert_eq!(serialized[5], 0x03); // Regular frame type flag

    // Test audio frame
    let audio_obj = MoqObject {
        name: "audio".to_string(),
        sequence: 3,
        timestamp: 3000,
        group_id: MEDIA_TYPE_AUDIO as u32,
        priority: 128,
        data: vec![10, 11, 12],
    };
    let serialized = serialize_object(&audio_obj);
    assert_eq!(serialized[5], 0x04); // Audio type flag
}

#[test]
fn test_video_chunk_conversion() {
    let chunk = VideoChunk {
        timestamp: 1000000,
        duration: 33333,
        is_keyframe: true,
        dependency_sequence: Some(10),
        data: vec![0xFF, 0xFE, 0xFD],
    };

    let object = MoqObject::from_video_chunk(
        "/video/chunk1".to_string(),
        42,
        chunk.clone(),
        MEDIA_TYPE_VIDEO as u32,
    );

    assert_eq!(object.name, "/video/chunk1");
    assert_eq!(object.sequence, 42);
    assert_eq!(object.timestamp, chunk.timestamp);
    assert_eq!(object.group_id, MEDIA_TYPE_VIDEO as u32);
    assert_eq!(object.priority, 255); // Keyframe priority

    // Convert back
    let converted = object.to_video_chunk().unwrap();
    assert_eq!(converted.timestamp, chunk.timestamp);
    assert_eq!(converted.duration, chunk.duration);
    assert_eq!(converted.is_keyframe, chunk.is_keyframe);
    assert_eq!(converted.dependency_sequence, chunk.dependency_sequence);
    assert_eq!(converted.data, chunk.data);
}

#[test]
fn test_video_chunk_no_dependency() {
    let chunk = VideoChunk {
        timestamp: 2000000,
        duration: 33333,
        is_keyframe: false,
        dependency_sequence: None,
        data: vec![0xAA, 0xBB, 0xCC],
    };

    let object = MoqObject::from_video_chunk(
        "/video/chunk2".to_string(),
        43,
        chunk.clone(),
        MEDIA_TYPE_VIDEO as u32,
    );

    assert_eq!(object.priority, 128); // Non-keyframe priority

    // Convert back
    let converted = object.to_video_chunk().unwrap();
    assert_eq!(converted.dependency_sequence, None);
}

#[test]
fn test_audio_chunk_conversion() {
    let chunk = AudioChunk {
        timestamp: 3000000,
        duration: 20000,
        is_key: true,
        data: vec![0x11, 0x22, 0x33, 0x44],
    };

    let object = MoqObject::from_audio_chunk(
        "/audio/chunk1".to_string(),
        44,
        chunk.clone(),
        MEDIA_TYPE_AUDIO as u32,
    );

    assert_eq!(object.name, "/audio/chunk1");
    assert_eq!(object.sequence, 44);
    assert_eq!(object.timestamp, chunk.timestamp);
    assert_eq!(object.group_id, MEDIA_TYPE_AUDIO as u32);
    assert_eq!(object.priority, 128);

    // Convert back
    let converted = object.to_audio_chunk().unwrap();
    assert_eq!(converted.timestamp, chunk.timestamp);
    assert_eq!(converted.duration, chunk.duration);
    assert_eq!(converted.is_key, chunk.is_key);
    assert_eq!(converted.data, chunk.data);
}

#[test]
fn test_audio_chunk_wrong_group_id() {
    let object = MoqObject {
        name: "test".to_string(),
        sequence: 1,
        timestamp: 0,
        group_id: MEDIA_TYPE_VIDEO as u32, // Wrong group ID
        priority: 128,
        data: vec![1, 2, 3],
    };

    let result = object.to_audio_chunk();
    assert!(result.is_err());
    assert!(result.unwrap_err().message().contains("not audio"));
}

#[test]
fn test_topic_hash() {
    let topic = b"test-topic";
    let hash1 = topic_hash(topic);
    let hash2 = topic_hash(topic);
    assert_eq!(hash1, hash2); // Should be deterministic

    let different_topic = b"different-topic";
    let hash3 = topic_hash(different_topic);
    assert_ne!(hash1, hash3); // Different topics should have different hashes
}

#[test]
fn test_buffer_boundary_conditions() {
    // Test deserializing with exact buffer size
    let mut buffer = BytesMut::new();
    buffer.put_u8(TYPE_CANCEL);
    buffer.put_u64(12345);

    let result = deserialize_cancel(&mut buffer);
    assert!(result.is_ok());
    assert_eq!(result.unwrap(), 12345);
    assert_eq!(buffer.len(), 0); // Buffer should be consumed

    // Test deserializing with extra data
    let mut buffer = BytesMut::new();
    buffer.put_u8(TYPE_TERMINATE);
    buffer.put_u8(REASON_ERROR);
    buffer.put_u8(0xFF); // Extra byte

    let result = deserialize_terminate(&mut buffer);
    assert!(result.is_ok());
    assert_eq!(result.unwrap(), REASON_ERROR);
    assert_eq!(buffer.len(), 1); // Extra byte should remain
}

#[test]
fn test_invalid_utf8_handling() {
    // Test invalid UTF-8 in namespace
    let mut buffer = BytesMut::new();
    buffer.put_u8(TYPE_UNSUBSCRIBE);
    buffer.extend_from_slice(&new_id().bytes);
    buffer.put_u16(4);
    buffer.extend_from_slice(&[0xFF, 0xFE, 0xFD, 0xFC]); // Invalid UTF-8

    let result = deserialize_unsubscribe(&mut buffer);
    assert!(result.is_err());
}

#[test]
fn test_large_object_serialization() {
    // Test with large data payload
    let large_data = vec![0xAB; 1_000_000]; // 1MB of data
    let object = MoqObject {
        name: "/large/object".to_string(),
        sequence: 999999,
        timestamp: u64::MAX,
        group_id: MEDIA_TYPE_VIDEO as u32,
        priority: 200,
        data: large_data.clone(),
    };

    let serialized = serialize_object(&object);
    let mut buffer = serialized;
    let deserialized = deserialize_object(&mut buffer).unwrap();

    assert_eq!(deserialized.data.len(), large_data.len());
    assert_eq!(deserialized.data, large_data);
}

fn counting_id() -> StreamId {
    let mut bytes = [0u8; 16];
    for i in 0..16 {
        bytes[i] = i as u8;
    }
    StreamId { bytes }
}

fn buffer(bytes: &[u8]) -> BytesMut {
    BytesMut::from(bytes)
}

fn small_object() -> MoqObject {
    MoqObject {
        name: "ab".to_string(),
        sequence: 0x0102030405060708,
        timestamp: 9,
        group_id: 7,
        priority: 5,
        data: vec![0xAA, 0xBB],
    }
}

#[test]
fn names_of_the_protocol() {
    assert_eq!(&ALPN, b"iroh-moq/v1");
    assert_eq!(&ANNOUNCE_TOPIC, b"moq-iroh-announce");
    assert_eq!(MEDIA_TYPE_EOF, u32::MAX);
}

#[test]
fn identifiers_in_both_byte_orders() {
    let id = counting_id();
    let le = id.to_bytes_le();
    assert_eq!(le, [3, 2, 1, 0, 5, 4, 7, 6, 8, 9, 10, 11, 12, 13, 14, 15]);
    assert!(StreamId::from_bytes_le(le).same(&id));
    assert!(!StreamId::from_bytes_le(id.bytes).same(&id));
    assert!(StreamId::from_slice(&id.bytes).unwrap().same(&id));
    assert!(StreamId::from_slice(&id.bytes[..15]).is_none());
    let random = new_id();
    let as_uuid = Uuid::from_bytes(random.bytes);
    assert_eq!(random.to_bytes_le(), as_uuid.to_bytes_le());
}

#[test]
fn bytes_of_control_messages() {
    let id = counting_id();
    let mut expected = vec![0x01, 0x00, 0x02];
    expected.extend_from_slice(&id.bytes);
    expected.extend_from_slice(b"/a");
    expected.extend_from_slice(&[0, 0, 0, 0, 0, 0, 1, 2, 0, 0, 0, 3, 9]);
    assert_eq!(&serialize_subscribe(id, "/a", 258, 3, 9)[..], &expected[..]);

    let mut expected = vec![0x02];
    expected.extend_from_slice(&id.bytes);
    expected.extend_from_slice(&[0, 2]);
    expected.extend_from_slice(b"/a");
    assert_eq!(&serialize_unsubscribe(id, "/a")[..], &expected[..]);

    assert_eq!(&serialize_cancel(1)[..], &[0x03, 0, 0, 0, 0, 0, 0, 0, 1]);

    let mut expected = vec![0x04];
    expected.extend_from_slice(&id.bytes);
    expected.extend_from_slice(&[0, 2]);
    expected.extend_from_slice(b"/a");
    expected.extend_from_slice(&[0, 0, 0, 0, 0, 0, 0, 7]);
    assert_eq!(&serialize_request(id, "/a", 7)[..], &expected[..]);

    assert_eq!(&serialize_terminate(1)[..], &[0x05, 1]);
    assert_eq!(&serialize_heartbeat(255)[..], &[0x06, 0, 0, 0, 0, 0, 0, 0, 255]);

    let mut expected = vec![0x08];
    expected.extend_from_slice(&id.bytes);
    assert_eq!(&serialize_subscribe_ok(id)[..], &expected[..]);
}

#[test]
fn messages_leave_what_follows() {
    let id = new_id();
    let mut b = serialize_subscribe(id, "/n", 1, 2, 3);
    b.extend_from_slice(&serialize_request(id, "/ünï", 4));
    b.extend_from_slice(&serialize_unsubscribe(id, ""));
    b.extend_from_slice(&serialize_heartbeat(5));
    b.extend_from_slice(&serialize_cancel(6));
    b.extend_from_slice(&serialize_terminate(7));
    b.extend_from_slice(&serialize_subscribe_ok(id));
    b.extend_from_slice(b"rest");
    assert_eq!(deserialize_subscribe(&mut b).unwrap(), (id, "/n".to_string(), 1, 2, 3));
    assert_eq!(deserialize_request(&mut b).unwrap(), (id, "/ünï".to_string(), 4));
    assert_eq!(deserialize_unsubscribe(&mut b).unwrap(), (id, String::new()));
    assert_eq!(deserialize_heartbeat(&mut b).unwrap(), 5);
    assert_eq!(deserialize_cancel(&mut b).unwrap(), 6);
    assert_eq!(deserialize_terminate(&mut b).unwrap(), 7);
    assert_eq!(deserialize_subscribe_ok(&mut b).unwrap(), id);
    assert_eq!(&b[..], b"rest");
}

#[test]
fn errors_of_control_messages_and_what_they_use_up() {
    let id = counting_id();

    let mut b = buffer(&[1, 0]);
    assert_eq!(deserialize_subscribe(&mut b), Err(ProtoError::IncompleteSubscribeHeader));
    assert_eq!(b.len(), 2);

    let mut b = buffer(&[1, 0, 1, 9, 9]);
    assert_eq!(deserialize_subscribe(&mut b), Err(ProtoError::IncompleteSubscribeBody));
    assert_eq!(b.len(), 2);

    let mut b = serialize_subscribe(id, "a", 0, 0, 0);
    b[19] = 0xFF;
    assert_eq!(deserialize_subscribe(&mut b), Err(unreadable(0, Some(1))));
    assert_eq!(b.len(), 14);

    let mut b = buffer(&[2; 18]);
    assert_eq!(deserialize_unsubscribe(&mut b), Err(ProtoError::IncompleteUnsubscribe));
    assert_eq!(b.len(), 18);

    let whole = serialize_unsubscribe(id, "abc");
    let mut b = buffer(&whole[..21]);
    assert_eq!(deserialize_unsubscribe(&mut b), Err(ProtoError::IncompleteNamespace));
    assert_eq!(b.len(), 2);

    let mut b = buffer(&[3; 8]);
    assert_eq!(deserialize_cancel(&mut b), Err(ProtoError::IncompleteCancel));
    let mut b = buffer(&[6; 8]);
    assert_eq!(deserialize_heartbeat(&mut b), Err(ProtoError::IncompleteHeartbeat));
    let mut b = buffer(&[5]);
    assert_eq!(deserialize_terminate(&mut b), Err(ProtoError::IncompleteTerminate));
    let mut b = buffer(&[8; 16]);
    assert_eq!(deserialize_subscribe_ok(&mut b), Err(ProtoError::IncompleteSubscribeOk));
    assert_eq!(b.len(), 16);

    let mut b = buffer(&[4; 26]);
    assert_eq!(deserialize_request(&mut b), Err(ProtoError::IncompleteRequest));
    assert_eq!(b.len(), 26);
    let whole = serialize_request(id, "abc", 1);
    let mut b = buffer(&whole[..29]);
    assert_eq!(deserialize_request(&mut b), Err(ProtoError::IncompleteNamespaceOrSequence));
    assert_eq!(b.len(), 10);
}

#[test]
fn namespace_length_is_cut_to_two_bytes() {
    let long = "n".repeat(65_537);
    let b = serialize_unsubscribe(counting_id(), &long);
    assert_eq!(&b[17..19], &[0, 1]);
    assert_eq!(b.len(), 19 + 65_537);
}

#[test]
fn bytes_of_an_object() {
    let b = serialize_object(&small_object());
    let expected = [
        0, 0, 0, 40, 0x10, 0x00, 0, 0, 0, 0, 0, 0, 0, 9, 1, 8, 1, 2, 3, 4, 5, 6, 7, 8, 2, 4, 0, 0,
        0, 7, 3, 1, 5, 4, 2, b'a', b'b', 0, 0, 0, 0, 2, 0xAA, 0xBB,
    ];
    assert_eq!(&b[..], &expected[..]);
}

#[test]
fn objects_leave_what_follows() {
    let mut b = serialize_object(&small_object());
    b.extend_from_slice(b"rest");
    assert!(object_is_readable(&b));
    let o = deserialize_object(&mut b).unwrap();
    assert_eq!(o.name, "ab");
    assert_eq!(o.sequence, 0x0102030405060708);
    assert_eq!(o.timestamp, 9);
    assert_eq!(o.group_id, 7);
    assert_eq!(o.priority, 5);
    assert_eq!(o.data, vec![0xAA, 0xBB]);
    assert_eq!(&b[..], b"rest");
}

#[test]
fn defaults_of_an_object_without_metadata() {
    for (flags, group_id, priority) in [(1u8, 0u32, 128u8), (2, 1, 255), (3, 1, 128), (4, 2, 128), (9, 0, 128)] {
        let mut b = buffer(&[0, 0, 0, 15, 0x10, flags, 0, 0, 0, 0, 0, 0, 0, 1, 0, 0, 0, 0, 0]);
        let o = deserialize_object(&mut b).unwrap();
        assert_eq!((o.group_id, o.priority, o.sequence, o.timestamp), (group_id, priority, 0, 1));
        assert_eq!(o.name, "");
        assert!(o.data.is_empty());
        assert!(b.is_empty());
    }
}

#[test]
fn unknown_metadata_is_passed_over() {
    let mut b = buffer(&[
        0, 0, 0, 20, 0x10, 3, 0, 0, 0, 0, 0, 0, 0, 1, 77, 3, 1, 2, 3, 0, 0, 0, 0, 1, 42,
    ]);
    let o = deserialize_object(&mut b).unwrap();
    assert_eq!(o.data, vec![42]);
    assert!(b.is_empty());
}

#[test]
fn errors_of_objects_and_what_they_use_up() {
    let refused = |bytes: &[u8]| {
        let mut b = buffer(bytes);
        assert!(object_is_readable(&b));
        let e = deserialize_object(&mut b).unwrap_err();
        (e, b.len())
    };
    let head = [0, 0, 0, 0, 0x10, 3, 0, 0, 0, 0, 0, 0, 0, 1];
    let with = |tail: &[u8]| [&head[..], tail].concat();
    assert_eq!(refused(&[0, 0, 0]), (ProtoError::NoMessageLength, 3));
    assert_eq!(refused(&[0, 0, 0, 2, 0x10]), (ProtoError::IncompleteMessage, 1));
    assert_eq!(refused(&[0, 0, 0, 1, 0x11, 5]), (ProtoError::InvalidMessageType(0x11), 1));
    assert_eq!(refused(&[0, 0, 0, 1, 0x10, 5]), (ProtoError::NoBasicHeader, 1));
    assert_eq!(refused(&head), (ProtoError::EndInMetadata, 0));
    assert_eq!(refused(&with(&[9])), (ProtoError::NoTlvLength, 0));
    assert_eq!(refused(&with(&[9, 3, 1])), (ProtoError::ShortTlvValue, 1));
    assert_eq!(refused(&with(&[4, 1, 0xFF])), (unreadable(0, Some(1)), 1));
    assert_eq!(refused(&with(&[0, 0, 0, 0])), (ProtoError::NoPayloadLength, 3));
    assert_eq!(refused(&with(&[0, 0, 0, 0, 2, 7])), (ProtoError::ShortPayload, 1));
}

#[test]
fn objects_that_cannot_be_read_are_known_before() {
    let head = [0, 0, 0, 0, 0x10, 3, 0, 0, 0, 0, 0, 0, 0, 1];
    let with = |tail: &[u8]| buffer(&[&head[..], tail].concat());
    assert!(!object_is_readable(&buffer(&[0, 0, 0, 0])));
    assert!(!object_is_readable(&with(&[1, 0, 1, 2, 3, 4, 5, 6, 7])));
    assert!(!object_is_readable(&with(&[2, 0, 1, 2, 3])));
    assert!(!object_is_readable(&with(&[3, 0])));
    assert!(object_is_readable(&with(&[1, 0, 1, 2, 3, 4, 5, 6, 7, 8])));
    assert!(object_is_readable(&with(&[4, 1, 0xFF])));
    assert!(object_is_readable(&with(&[4, 1, b'x', 0])));
    assert!(object_is_readable(&with(&[8, 0])));
}

#[test]
fn errors_in_words() {
    assert_eq!(
        ProtoError::InvalidMessageType(0xAB).message(),
        "Invalid message type: 0xab, expected 0x10"
    );
    assert_eq!(
        ProtoError::InvalidMessageType(7).message(),
        "Invalid message type: 0x7, expected 0x10"
    );
    assert_eq!(ProtoError::NotAudio.message(), "MoqObject is not audio");
    assert_eq!(ProtoError::ShortPayload.message(), "Buffer too short for payload");
}

fn unreadable(valid_up_to: usize, error_len: Option<usize>) -> ProtoError {
    ProtoError::InvalidUtf8(Utf8Fault { valid_up_to, error_len })
}

#[test]
fn faults_of_text_in_words() {
    let namespaces: [&[u8]; 5] =
        [&[0xFF], &[b'a', b'b', 0xC3], &[b'a', 0xC3, b'b'], &[0xE2, 0x82, b'x'], &[0xC3, 0xA4, 0xF0, 0x9F]];
    for namespace in namespaces {
        let mut b = BytesMut::new();
        b.put_u8(TYPE_UNSUBSCRIBE);
        b.extend_from_slice(&new_id().bytes);
        b.put_u16(namespace.len() as u16);
        b.extend_from_slice(namespace);
        let expected = String::from_utf8(namespace.to_vec()).unwrap_err();
        assert_eq!(deserialize_unsubscribe(&mut b).unwrap_err().message(), expected.to_string());
    }
    assert_eq!(
        unreadable(5, Some(2)).message(),
        "invalid utf-8 sequence of 2 bytes from index 5"
    );
    assert_eq!(unreadable(17, None).message(), "incomplete utf-8 byte sequence from index 17");
}

#[test]
fn bytes_of_chunks() {
    let chunk = VideoChunk {
        timestamp: 1,
        duration: 2,
        is_keyframe: true,
        dependency_sequence: Some(3),
        data: vec![9],
    };
    let o = MoqObject::from_video_chunk("v".to_string(), 5, chunk, 99);
    assert_eq!(o.group_id, 1);
    assert_eq!(o.data, vec![0, 0, 0, 0, 0, 0, 0, 1, 0, 0, 0, 2, 1, 1, 0, 0, 0, 0, 0, 0, 0, 3, 9]);
    let chunk = AudioChunk { timestamp: 1, duration: 2, is_key: false, data: vec![9] };
    let o = MoqObject::from_audio_chunk("a".to_string(), 5, chunk, 99);
    assert_eq!(o.group_id, 2);
    assert_eq!(o.data, vec![0, 0, 0, 0, 0, 0, 0, 1, 0, 0, 0, 2, 0, 9]);
}

#[test]
fn errors_of_chunks() {
    let mut o = small_object();
    o.data = vec![0; 12];
    assert_eq!(o.to_video_chunk().unwrap_err(), ProtoError::VideoChunkTooSmall);
    assert_eq!(o.to_audio_chunk().unwrap_err(), ProtoError::NotAudio);
    o.data = vec![0; 13];
    assert_eq!(o.to_video_chunk().unwrap_err(), ProtoError::VideoChunkTooSmall);
    o.data = vec![0; 12];
    o.group_id = 2;
    assert_eq!(o.to_audio_chunk().unwrap_err(), ProtoError::AudioChunkTooSmall);
    o.data = vec![1; 21];
    assert_eq!(o.to_video_chunk().unwrap_err(), ProtoError::InvalidDependency);
    o.data = vec![0; 14];
    let c = o.to_video_chunk().unwrap();
    assert_eq!((c.timestamp, c.duration, c.is_keyframe, c.dependency_sequence), (0, 0, false, None));
    assert!(c.data.is_empty());
}

#[test]
fn topic_of_the_announcements() {
    assert_eq!(topic_hash(&ANNOUNCE_TOPIC), *blake3::hash(b"moq-iroh-announce").as_bytes());
    assert_ne!(&topic_hash(&[7; 32])[..], &[7; 32][..]);
}

#[test]
fn announcements_are_told_apart() {
    let a = StreamAnnouncement {
        stream_id: counting_id(),
        sender_id: NodeId { bytes: [1; 32] },
        namespace: "/live/video".to_string(),
        codec: "h264".to_string(),
        resolution: (1920, 1080),
        framerate: 30,
        bitrate: 5000000,
        timestamp: 1234567890,
        relay_ids: vec!["relay1".to_string(), "relay2".to_string()],
    };
    assert!(a.announces(&counting_id()));
    assert!(!a.announces(&StreamId { bytes: [0; 16] }));
    let other = StreamId { bytes: [0; 16] };
    assert_eq!(search_step(&counting_id(), Some(&a), 9_000_000), SearchStep::Found);
    assert_eq!(search_step(&other, Some(&a), 4_999_999), SearchStep::Listen);
    assert_eq!(search_step(&other, Some(&a), 5_000_000), SearchStep::GiveUp);
    assert_eq!(search_step(&other, None, 0), SearchStep::Listen);
    assert_eq!(search_step(&other, None, 5_000_000), SearchStep::GiveUp);
    assert!(a.is_from(&NodeId { bytes: [1; 32] }));
    assert!(!a.is_from(&NodeId { bytes: [2; 32] }));
    let b = a.clone();
    assert_eq!(b.relay_ids, a.relay_ids);
    assert_eq!(b.namespace, a.namespace);
}
