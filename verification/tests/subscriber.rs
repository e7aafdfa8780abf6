//! The subscribing side from outside.

use bytes::BytesMut;
use iroh_moq::engine::frame::serialize_object;
use iroh_moq::ids::{NodeId, StreamId};
use iroh_moq::proto::{
    deserialize_subscribe, serialize_subscribe_ok, MoqObject, StreamAnnouncement, MEDIA_TYPE_AUDIO,
    MEDIA_TYPE_INIT, MEDIA_TYPE_VIDEO,
};
use iroh_moq::subscriber::frame::ReadError;
use iroh_moq::subscriber::{
    deserialize_object, drain_objects, frame_is_readable, object_to_video_chunk,
    take_confirmations, SubscriberAction, SubscriberActor, SubscriberCommand, SubscriberEvent,
    SubscriberState,
};

fn announcement(codec: &str) -> StreamAnnouncement {
    StreamAnnouncement {
        stream_id: StreamId { bytes: [5; 16] },
        sender_id: NodeId { bytes: [6; 32] },
        namespace: "/live/video".to_string(),
        codec: codec.to_string(),
        resolution: (1920, 1080),
        framerate: 30,
        bitrate: 5_000_000,
        timestamp: 1,
        relay_ids: vec![],
    }
}

fn object(sequence: u64, size: usize) -> MoqObject {
    MoqObject {
        name: format!("/ö/{}", sequence),
        sequence,
        timestamp: 10 * sequence,
        group_id: MEDIA_TYPE_VIDEO as u32,
        priority: 128,
        data: vec![sequence as u8; size],
    }
}

fn same(a: &MoqObject, b: &MoqObject) -> bool {
    a.name == b.name
        && a.sequence == b.sequence
        && a.timestamp == b.timestamp
        && a.group_id == b.group_id
        && a.priority == b.priority
        && a.data == b.data
}

fn subscribed(codec: &str) -> SubscriberActor {
    let (mut actor, first) = SubscriberActor::new(announcement(codec));
    assert!(matches!(actor.handle(first), SubscriberAction::Connect));
    let next = actor.report(SubscriberEvent::Connected).unwrap();
    assert!(matches!(actor.handle(next), SubscriberAction::OpenControlStream));
    let next = actor.report(SubscriberEvent::ControlStreamOpened).unwrap();
    assert!(matches!(actor.handle(next), SubscriberAction::Subscribe));
    assert!(actor.report(SubscriberEvent::SubscribeSent).is_none());
    assert!(matches!(actor.current(), SubscriberState::Subscribing));
    match actor.handle(SubscriberCommand::SubscribeOk) {
        SubscriberAction::Next(next) => {
            assert!(matches!(actor.handle(next), SubscriberAction::OpenDataStream));
        }
        _ => panic!("nothing next"),
    }
    assert!(actor.report(SubscriberEvent::DataStreamOpened).is_none());
    actor
}

#[test]
fn a_frame_comes_back_and_leaves_what_follows() {
    let o = object(7, 3);
    let mut b = BytesMut::from(&serialize_object(&o).unwrap()[..]);
    b.extend_from_slice(b"more");
    assert!(frame_is_readable(&b));
    assert!(same(&deserialize_object(&mut b).unwrap(), &o));
    assert_eq!(&b[..], b"more");
}

#[test]
fn errors_of_frames_and_what_they_use_up() {
    let refused = |bytes: &[u8]| {
        let mut b = BytesMut::from(bytes);
        assert!(frame_is_readable(&b));
        let e = deserialize_object(&mut b).unwrap_err();
        (e, b.len())
    };
    assert_eq!(refused(&[0, 0, 0]), (ReadError::NoLength, 3));
    assert_eq!(refused(&[0, 0, 0, 1]), (ReadError::Incomplete, 4));
    assert_eq!(refused(&[0, 0, 0, 2, 0, 1, 9]), (ReadError::NameTooLong, 1));
    assert_eq!(refused(&[0, 0, 0, 3, 0, 1, b'a']), (ReadError::Truncated, 0));
    let mut whole = serialize_object(&object(1, 2)).unwrap();
    let n = whole.len();
    whole[n - 3] = 3;
    assert_eq!(refused(&whole), (ReadError::DataTooLong, 0));
    assert_eq!(ReadError::NoLength.message(), "Buffer too small for length header");
    assert_eq!(ReadError::Incomplete.message(), "Incomplete object data");
    assert_eq!(ReadError::NameTooLong.message(), "Name length exceeds buffer size");
    assert_eq!(ReadError::Truncated.message(), "failed to fill whole buffer");
    assert_eq!(ReadError::DataTooLong.message(), "Data length exceeds buffer size");
    assert!(!frame_is_readable(&BytesMut::from(&[0u8, 0, 0, 1, 0][..])));
    assert!(!frame_is_readable(&BytesMut::from(&[0u8, 0, 0, 0][..])));
}

#[test]
fn a_damaged_name_is_replaced() {
    let mut whole = serialize_object(&object(1, 2)).unwrap();
    whole[7] = 0xFF;
    let mut b = BytesMut::from(&whole[..]);
    let o = deserialize_object(&mut b).unwrap();
    assert_eq!(o.name, String::from_utf8_lossy(&whole[6..6 + 5]));
    assert!(o.name.contains('\u{FFFD}'));
}

#[test]
fn any_chunking_delivers_the_same_objects() {
    let objects: Vec<MoqObject> = (0..6).map(|i| object(i, 5 * i as usize)).collect();
    let mut bytes = Vec::new();
    for o in &objects {
        bytes.extend_from_slice(&serialize_object(o).unwrap());
    }
    for size in [1, 2, 3, 7, 50, 1000] {
        let mut held = BytesMut::new();
        let mut got: Vec<MoqObject> = Vec::new();
        for chunk in bytes.chunks(size) {
            held.extend_from_slice(chunk);
            let d = drain_objects(&mut held);
            assert!(d.readable);
            got.extend(d.objects);
        }
        assert_eq!(got.len(), objects.len());
        assert!(got.iter().zip(&objects).all(|(a, b)| same(a, b)));
        assert!(held.is_empty());
    }
}

#[test]
fn draining_stops_behind_a_bad_frame_and_before_an_unreadable_one() {
    let good = serialize_object(&object(1, 1)).unwrap();
    let mut b = BytesMut::new();
    b.extend_from_slice(&good);
    b.extend_from_slice(&[0, 0, 0, 3, 0, 1, b'a']);
    b.extend_from_slice(&good);
    let d = drain_objects(&mut b);
    assert_eq!((d.objects.len(), d.readable, b.len()), (1, true, good.len()));
    let d = drain_objects(&mut b);
    assert_eq!((d.objects.len(), d.readable, b.len()), (1, true, 0));

    b.extend_from_slice(&good);
    b.extend_from_slice(&[0, 0, 0, 1, 0]);
    let d = drain_objects(&mut b);
    assert_eq!((d.objects.len(), d.readable, b.len()), (1, false, 5));
}

#[test]
fn confirmations_are_counted_however_they_arrive() {
    let ok = serialize_subscribe_ok(StreamId { bytes: [8; 16] });
    let mut reply = vec![0, 0, 0, 17];
    reply.extend_from_slice(&ok);
    for cut in 0..=reply.len() {
        let mut b = BytesMut::from(&reply[..cut]);
        let first = take_confirmations(&mut b);
        b.extend_from_slice(&reply[cut..]);
        assert_eq!(first + take_confirmations(&mut b), 1);
        assert!(b.is_empty());
    }
    let mut b = BytesMut::from(&b"noise"[..]);
    assert_eq!(take_confirmations(&mut b), 0);
    assert!(b.is_empty());
}

#[test]
fn a_subscription_from_start_to_delivery() {
    let mut actor = subscribed("avc1.64001f");
    assert!(matches!(actor.current(), SubscriberState::Subscribed));
    assert_eq!(actor.announcement().namespace, "/live/video");

    let mut init = object(0, 4);
    init.group_id = MEDIA_TYPE_INIT as u32;
    match actor.handle(SubscriberCommand::ProcessObject(init)) {
        SubscriberAction::DeliverInit(init) => {
            assert_eq!(init.codec, "avc1.64001f");
            assert_eq!(init.mime_type, "video/avc1");
            assert_eq!((init.width, init.height), (1920, 1080));
            assert_eq!((init.frame_rate, init.bitrate), (30, 5_000_000));
            assert_eq!(init.init_segment, vec![0; 4]);
        }
        _ => panic!("no initialization data"),
    }
    match actor.handle(SubscriberCommand::ProcessObject(object(3, 2))) {
        SubscriberAction::DeliverChunk(c) => {
            assert_eq!((c.timestamp, c.duration, c.is_keyframe), (30, 0, false));
            assert_eq!(c.dependency_sequence, None);
            assert_eq!(c.data, vec![3, 3]);
        }
        _ => panic!("no chunk"),
    }
    let mut audio = object(4, 1);
    audio.group_id = MEDIA_TYPE_AUDIO as u32;
    assert!(matches!(
        actor.handle(SubscriberCommand::ProcessObject(audio)),
        SubscriberAction::UnknownGroup(2)
    ));
}

#[test]
fn mime_types_without_a_dot() {
    let mut actor = subscribed("h264");
    let mut init = object(0, 0);
    init.group_id = MEDIA_TYPE_INIT as u32;
    match actor.handle(SubscriberCommand::ProcessObject(init)) {
        SubscriberAction::DeliverInit(init) => assert_eq!(init.mime_type, "video/h264"),
        _ => panic!("no initialization data"),
    }
}

#[test]
fn keyframes_by_priority() {
    let mut o = object(1, 1);
    o.priority = 199;
    assert!(!object_to_video_chunk(&o).is_keyframe);
    o.priority = 200;
    assert!(object_to_video_chunk(&o).is_keyframe);
}

#[test]
fn commands_out_of_turn() {
    let (mut actor, _) = SubscriberActor::new(announcement("h264"));
    assert!(matches!(actor.handle(SubscriberCommand::Subscribe), SubscriberAction::Invalid));
    assert!(matches!(actor.current(), SubscriberState::Initial));
    let mut actor = subscribed("h264");
    assert!(matches!(
        actor.handle(SubscriberCommand::RequestRetransmission(1)),
        SubscriberAction::Invalid
    ));
    assert!(matches!(actor.handle(SubscriberCommand::SubscribeOk), SubscriberAction::Invalid));
}

#[test]
fn the_end_of_a_subscription() {
    let mut actor = subscribed("h264");
    assert!(actor.report(SubscriberEvent::Failed("gone".to_string())).is_none());
    assert!(matches!(actor.current(), SubscriberState::Terminated(r) if r == "gone"));
    assert!(matches!(actor.handle(SubscriberCommand::Connect), SubscriberAction::Ignored));
    assert!(matches!(
        actor.handle(SubscriberCommand::ProcessObject(object(1, 1))),
        SubscriberAction::Ignored
    ));
    assert!(matches!(
        actor.handle(SubscriberCommand::Terminate("again".to_string())),
        SubscriberAction::Stop
    ));
    assert!(matches!(actor.current(), SubscriberState::Terminated(r) if r == "again"));
}

#[test]
fn the_request_of_a_subscriber() {
    let actor = subscribed("h264");
    let mut b = actor.subscribe_request();
    assert_eq!(
        deserialize_subscribe(&mut b).unwrap(),
        (StreamId { bytes: [5; 16] }, "/live/video".to_string(), 0, 0, 255)
    );
}
