//! The protocol handler from outside.

use bytes::BytesMut;
use iroh_moq::engine::frame::serialize_object;
use iroh_moq::ids::{NodeId, StreamId};
use iroh_moq::proto::{
    serialize_cancel, serialize_heartbeat, serialize_request, serialize_subscribe,
    serialize_subscribe_ok, serialize_terminate, serialize_unsubscribe, AudioChunk, AudioInit,
    MediaInit, ProtoError, VideoChunk,
};
use iroh_moq::protocol::{
    audio_announcement, audio_init_object, data_stream_header, error_response, namespace_length,
    next_control_message, ok_response_header, process_control_messages, read_data_stream_header,
    requested_file, respond,
    stream_type, video_announcement, video_init_object, AudioPublisher, Builder, ChunkPublisher,
    ControlAction, ControlMessage, ControlStep, HttpError, HttpRequest, MoqIrohConfig, StreamType,
    STREAM_TYPE_CONTROL, STREAM_TYPE_DATA, STREAM_TYPE_HTTP,
};
use iroh_moq::subscriber::{deserialize_object, object_to_video_chunk};
use iroh_moq::text::Utf8Fault;

fn id(n: u8) -> StreamId {
    StreamId { bytes: [n; 16] }
}

fn counting_id() -> StreamId {
    let mut bytes = [0; 16];
    for i in 0..16 {
        bytes[i] = i as u8;
    }
    StreamId { bytes }
}

fn media_init() -> MediaInit {
    MediaInit {
        codec: "avc1.64001f".to_string(),
        mime_type: "video/mp4".to_string(),
        width: 1920,
        height: 1080,
        frame_rate: 29,
        bitrate: 5_000_000,
        init_segment: vec![1, 2, 3],
    }
}

fn audio() -> AudioInit {
    AudioInit {
        codec: "opus".to_string(),
        mime_type: "audio/opus".to_string(),
        sample_rate: 48_000,
        channels: 2,
        bitrate: 128_000,
        init_segment: vec![4, 5],
    }
}

#[test]
fn configuration() {
    let c = MoqIrohConfig::default();
    assert_eq!((c.max_buffer_size, c.heartbeat_interval, c.enable_relay), (1024 * 1024, 5000, false));
    assert!(Builder::new().get_config().is_none());
    assert!(Builder::default().get_config().is_none());
    let c = MoqIrohConfig { heartbeat_interval: 7, ..c };
    assert_eq!(Builder::new().config(c).get_config().unwrap().heartbeat_interval, 7);
}

#[test]
fn kinds_of_streams() {
    assert_eq!(stream_type(STREAM_TYPE_CONTROL), StreamType::Control);
    assert_eq!(stream_type(STREAM_TYPE_DATA), StreamType::Data);
    assert_eq!(stream_type(STREAM_TYPE_HTTP), StreamType::Http);
    assert_eq!(stream_type(9), StreamType::Unknown(9));
}

#[test]
fn head_of_a_data_stream() {
    let mut bytes = [0u8; 16];
    for i in 0..16 {
        bytes[i] = i as u8;
    }
    let head = data_stream_header(&StreamId { bytes }, "/ä");
    assert_eq!(head[0], STREAM_TYPE_DATA);
    assert_eq!(&head[1..17], &[3, 2, 1, 0, 5, 4, 7, 6, 8, 9, 10, 11, 12, 13, 14, 15]);
    assert_eq!(&head[17..], &[3, 0, b'/', 0xC3, 0xA4]);

    let mut le = [0u8; 16];
    le.copy_from_slice(&head[1..17]);
    assert_eq!(namespace_length([head[17], head[18]]), 3);
    let (id, namespace) = read_data_stream_header(le, head[19..].to_vec()).unwrap();
    assert_eq!(id.bytes, bytes);
    assert_eq!(namespace, "/ä");
    assert_eq!(read_data_stream_header(le, vec![0xFF]), Err(unreadable()));
    assert_eq!(namespace_length([1, 2]), 513);
}

#[test]
fn messages_on_a_control_stream() {
    let mut b = BytesMut::new();
    b.extend_from_slice(&[0x10, 0x77]);
    b.extend_from_slice(&serialize_subscribe(id(1), "/n", 4, 5, 6));
    b.extend_from_slice(&serialize_heartbeat(11));
    b.extend_from_slice(&serialize_request(id(2), "/m", 12));
    b.extend_from_slice(&serialize_unsubscribe(id(3), "/o"));
    b.extend_from_slice(&serialize_cancel(13));
    b.extend_from_slice(&serialize_terminate(14));
    b.extend_from_slice(&serialize_subscribe_ok(counting_id()));
    assert!(matches!(next_control_message(&mut b), ControlStep::Skipped(0x10)));
    assert!(matches!(next_control_message(&mut b), ControlStep::Skipped(0x77)));
    match next_control_message(&mut b) {
        ControlStep::Message(ControlMessage::Subscribe {
            stream_id,
            namespace,
            start_sequence,
            group_id,
            priority,
        }) => {
            assert_eq!(stream_id, id(1));
            assert_eq!(namespace, "/n");
            assert_eq!((start_sequence, group_id, priority), (4, 5, 6));
        }
        other => panic!("{:?}", other),
    }
    assert!(matches!(
        next_control_message(&mut b),
        ControlStep::Message(ControlMessage::Heartbeat { timestamp: 11 })
    ));
    assert!(matches!(
        next_control_message(&mut b),
        ControlStep::Message(ControlMessage::Request { sequence: 12, .. })
    ));
    assert!(matches!(
        next_control_message(&mut b),
        ControlStep::Message(ControlMessage::Unsubscribe { .. })
    ));
    assert!(matches!(
        next_control_message(&mut b),
        ControlStep::Message(ControlMessage::Cancel { sequence: 13 })
    ));
    assert!(matches!(
        next_control_message(&mut b),
        ControlStep::Message(ControlMessage::Terminate { reason: 14 })
    ));
    match next_control_message(&mut b) {
        ControlStep::Message(ControlMessage::SubscribeOk { stream_id }) => {
            assert_eq!(stream_id, counting_id());
        }
        other => panic!("{:?}", other),
    }
    assert!(matches!(next_control_message(&mut b), ControlStep::Wait));
    assert!(b.is_empty());
}

#[test]
fn control_messages_that_are_not_all_there() {
    let waits = |bytes: &[u8]| {
        let mut b = BytesMut::from(bytes);
        let waits = matches!(next_control_message(&mut b), ControlStep::Wait);
        waits && b.len() == bytes.len()
    };
    assert!(waits(&[]));
    assert!(waits(&[0x01, 0]));
    let whole = serialize_subscribe(id(1), "/n", 4, 5, 6);
    assert!(waits(&whole[..whole.len() - 1]));
    assert!(waits(&[0x05]));
    assert!(waits(&[0x06; 8]));
    assert!(waits(&[0x03; 8]));
    assert!(waits(&[0x04; 25]));
    assert!(waits(&[0x02]));
    assert!(waits(&[0x02, 9, 0]));
    assert!(waits(&[0x08; 16]));
    let whole = serialize_request(id(1), "/a", 9);
    for n in 0..whole.len() {
        assert!(waits(&whole[..n]));
    }
    let whole = serialize_unsubscribe(id(255), "/a");
    for n in 0..whole.len() {
        assert!(waits(&whole[..n]));
    }
}

#[test]
fn control_messages_that_are_damaged() {
    let mut b = serialize_subscribe(id(1), "/n", 4, 5, 6);
    b[19] = 0xFF;
    assert!(matches!(
        next_control_message(&mut b),
        ControlStep::Failed(ProtoError::InvalidUtf8(_))
    ));

    let mut b = serialize_request(id(1), "a", 9);
    b[19] = 0xFF;
    match next_control_message(&mut b) {
        ControlStep::Ignored(e) => assert_eq!(e, unreadable()),
        other => panic!("{:?}", other),
    }
    assert_eq!(b.len(), 9);

    let mut b = serialize_unsubscribe(id(0), "abc");
    b[19] = 0xFF;
    match next_control_message(&mut b) {
        ControlStep::Ignored(e) => assert_eq!(e, unreadable()),
        other => panic!("{:?}", other),
    }
    assert_eq!(b.len(), 3);
}

fn unreadable() -> ProtoError {
    ProtoError::InvalidUtf8(Utf8Fault { valid_up_to: 0, error_len: Some(1) })
}

#[test]
fn control_messages_in_any_parts() {
    let mut whole = BytesMut::new();
    whole.extend_from_slice(&serialize_unsubscribe(id(255), "/o"));
    whole.extend_from_slice(&serialize_subscribe(id(1), "/n", 4, 5, 6));
    whole.extend_from_slice(&serialize_request(id(2), "/m", 12));
    whole.extend_from_slice(&serialize_cancel(13));
    whole.extend_from_slice(&serialize_unsubscribe(id(3), ""));
    for size in 1..=whole.len() {
        let mut b = BytesMut::new();
        let mut steps = Vec::new();
        for part in whole.chunks(size) {
            b.extend_from_slice(part);
            steps.extend(process_control_messages(&mut b));
        }
        assert!(b.is_empty());
        assert_eq!(steps.len(), 5);
        assert!(matches!(steps[0], ControlStep::Message(ControlMessage::Unsubscribe { .. })));
        assert!(matches!(steps[1], ControlStep::Message(ControlMessage::Subscribe { .. })));
        assert!(matches!(
            steps[2],
            ControlStep::Message(ControlMessage::Request { sequence: 12, .. })
        ));
        assert!(matches!(steps[3], ControlStep::Message(ControlMessage::Cancel { sequence: 13 })));
        assert!(matches!(steps[4], ControlStep::Message(ControlMessage::Unsubscribe { .. })));
    }
}

#[test]
fn a_damaged_subscription_ends_the_control_stream() {
    let mut b = serialize_heartbeat(1);
    let mut damaged = serialize_subscribe(id(1), "a", 4, 5, 6);
    damaged[19] = 0xFF;
    b.extend_from_slice(&damaged);
    b.extend_from_slice(&serialize_heartbeat(2));
    let steps = process_control_messages(&mut b);
    assert_eq!(steps.len(), 2);
    assert!(matches!(steps[0], ControlStep::Message(ControlMessage::Heartbeat { timestamp: 1 })));
    match &steps[1] {
        ControlStep::Failed(e) => assert_eq!(*e, unreadable()),
        other => panic!("{:?}", other),
    }
}

#[test]
fn responses_to_messages() {
    match respond(ControlMessage::Subscribe {
        stream_id: id(7),
        namespace: "/n".to_string(),
        start_sequence: 1,
        group_id: 2,
        priority: 3,
    }) {
        ControlAction::Subscribe { stream_id, namespace, group_id, reply } => {
            assert_eq!((stream_id, namespace.as_str(), group_id), (id(7), "/n", 2));
            let mut expected = vec![0, 0, 0, 17, 8];
            expected.extend_from_slice(&[7; 16]);
            assert_eq!(reply, expected);
        }
        other => panic!("{:?}", other),
    }
    match respond(ControlMessage::Heartbeat { timestamp: 5 }) {
        ControlAction::Reply(reply) => assert_eq!(&reply[..], &serialize_heartbeat(5)[..]),
        other => panic!("{:?}", other),
    }
    assert!(matches!(
        respond(ControlMessage::Request {
            stream_id: id(1),
            namespace: "/n".to_string(),
            sequence: 9
        }),
        ControlAction::Retransmit { sequence: 9, .. }
    ));
    assert!(matches!(
        respond(ControlMessage::SubscribeOk { stream_id: id(1) }),
        ControlAction::Confirm
    ));
    assert!(matches!(respond(ControlMessage::Cancel { sequence: 1 }), ControlAction::Nothing));
    assert!(matches!(respond(ControlMessage::Terminate { reason: 1 }), ControlAction::Nothing));
}

#[test]
fn what_opens_a_stream() {
    let o = video_init_object("/live", 77, &media_init());
    assert_eq!(o.name, "/live/init");
    assert_eq!((o.sequence, o.timestamp, o.group_id, o.priority), (0, 77, 0, 255));
    assert_eq!(o.data, vec![1, 2, 3]);
    let o = audio_init_object("/live", 78, &audio());
    assert_eq!(o.name, "/live/audio_init");
    assert_eq!((o.sequence, o.timestamp, o.group_id, o.priority), (0, 78, 0, 255));
    assert_eq!(o.data, vec![4, 5]);
}

#[test]
fn what_announces_a_stream() {
    let sender = NodeId { bytes: [3; 32] };
    let a = video_announcement(id(1), sender, "/live".to_string(), &media_init(), 9);
    assert_eq!(a.codec, "avc1.64001f");
    assert_eq!((a.resolution, a.framerate, a.bitrate, a.timestamp), ((1920, 1080), 29, 5_000_000, 9));
    assert!(a.relay_ids.is_empty());
    let a = audio_announcement(id(1), sender, "/live".to_string(), &audio(), 9);
    assert_eq!(a.codec, "opus");
    assert_eq!((a.resolution, a.framerate, a.bitrate, a.timestamp), ((0, 0), 0, 128_000, 9));
    assert!(a.is_from(&sender) && a.announces(&id(1)));
}

#[test]
fn chunks_are_numbered_and_reach_the_application() {
    let mut publisher = ChunkPublisher::new("/live".to_string());
    for i in 1..=12u64 {
        assert!(publisher.has_next());
        let chunk = VideoChunk {
            timestamp: 100 * i,
            duration: 33,
            is_keyframe: i % 5 == 1,
            dependency_sequence: Some(i),
            data: vec![i as u8; 3],
        };
        let o = publisher.publish(chunk.clone());
        assert_eq!(o.name, format!("/live/chunk_{}", i));
        assert_eq!((o.sequence, o.timestamp, o.group_id), (i, 100 * i, 1));
        assert_eq!(o.priority, if chunk.is_keyframe { 255 } else { 128 });

        let mut b = BytesMut::from(&serialize_object(&o).unwrap()[..]);
        let got = object_to_video_chunk(&deserialize_object(&mut b).unwrap());
        assert_eq!(got.timestamp, chunk.timestamp);
        assert_eq!(got.is_keyframe, chunk.is_keyframe);
        assert_eq!(got.data, chunk.data);
        assert_eq!((got.duration, got.dependency_sequence), (0, None));
    }
}

#[test]
fn audio_chunks_are_numbered() {
    let mut publisher = AudioPublisher::new("/live".to_string());
    for i in 1..=3u64 {
        assert!(publisher.has_next());
        let chunk = AudioChunk { timestamp: i, duration: 20, is_key: true, data: vec![9] };
        let o = publisher.publish(chunk);
        assert_eq!(o.name, format!("/live/chunk_{}", i));
        assert_eq!((o.sequence, o.timestamp, o.group_id, o.priority), (i, i, 2, 128));
        assert_eq!(o.to_audio_chunk().unwrap().data, vec![9]);
    }
}

#[test]
fn files_by_request() {
    let file = |request: &str| requested_file(request.as_bytes().to_vec());
    assert_eq!(file("GET /index.html HTTP/1.1\r\nHost: x\r\n\r\n").unwrap(), "www/index.html");
    assert_eq!(file("GET //a/b HTTP/1.1").unwrap(), "www/a/b");
    assert_eq!(file("GET /").unwrap(), "www/");
    assert_eq!(file("  GET\u{00A0}x.y \n").unwrap(), "www/x.y");
    assert_eq!(file("GET\r\n/path"), Err(HttpError::MalformedRequestLine));
    assert_eq!(file("\nGET /path"), Err(HttpError::MalformedRequestLine));
    assert_eq!(file("GET"), Err(HttpError::MalformedRequestLine));
    assert_eq!(file("GET /../secret HTTP/1.1"), Err(HttpError::InvalidPath));
    assert_eq!(file("GET /a..b HTTP/1.1"), Err(HttpError::InvalidPath));
    assert_eq!(file("GET /a.b.c HTTP/1.1").unwrap(), "www/a.b.c");
    assert_eq!(requested_file(vec![]), Err(HttpError::Empty));
    assert_eq!(
        requested_file(vec![b'G', 0xFF, 0xFE]),
        Err(HttpError::InvalidUtf8(Utf8Fault { valid_up_to: 1, error_len: Some(1) }))
    );
}

#[test]
fn requests_have_a_limit() {
    let mut r = HttpRequest::new();
    for _ in 0..16 {
        assert!(r.push_chunk(&[b'a'; 1024]).is_ok());
    }
    assert_eq!(r.push_chunk(&[b'a']), Err(HttpError::TooLarge));
    assert!(r.push_chunk(&[]).is_ok());
    assert_eq!(r.into_bytes().len(), 16 * 1024);
}

#[test]
fn http_responses() {
    assert_eq!(
        ok_response_header(1234),
        "HTTP/1.1 200 OK\r\nContent-Length: 1234\r\nConnection: close\r\n\r\n"
    );
    let r = error_response(true);
    assert_eq!(r.header, "HTTP/1.1 404 Not Found\r\nContent-Length: 15\r\nConnection: close\r\n\r\n");
    assert_eq!(r.body, "File not found.");
    let r = error_response(false);
    assert_eq!(
        r.header,
        "HTTP/1.1 500 Internal Server Error\r\nContent-Length: 20\r\nConnection: close\r\n\r\n"
    );
    assert_eq!(r.body, "Failed to read file.");
}

#[test]
fn http_errors_in_words() {
    assert_eq!(HttpError::TooLarge.message(), "HTTP request exceeds maximum size of 16384 bytes");
    assert_eq!(HttpError::Empty.message(), "Received empty HTTP request");
    assert_eq!(HttpError::MalformedRequestLine.message(), "malformed request line");
    assert_eq!(HttpError::InvalidPath.message(), "invalid path contains '..'");
    assert_eq!(
        HttpError::InvalidUtf8(Utf8Fault { valid_up_to: 1, error_len: Some(1) }).message(),
        "invalid utf-8 sequence of 1 bytes from index 1"
    );
}
