//! The publishing engine from outside.

use iroh_moq::engine::frame::{serialize_object, FrameError};
use iroh_moq::engine::{
    after_flush, after_write, normalize_namespace, send_object, ConnectionEvent, ConnectionState,
    ConnectionTracker, IoOutcome, Registration, SendError, SendStep, Slot, StreamAction,
    StreamActorState, StreamCommand, StreamRegistry, OBJECT_FLUSH_TIMEOUT, OBJECT_SEND_TIMEOUT,
};
use iroh_moq::ids::{NodeId, StreamId};
use iroh_moq::proto::{MoqObject, MEDIA_TYPE_AUDIO, MEDIA_TYPE_INIT, MEDIA_TYPE_VIDEO};

fn node(n: u8) -> NodeId {
    NodeId { bytes: [n; 32] }
}

fn object(sequence: u64, group: u8) -> MoqObject {
    MoqObject {
        name: format!("/o/{}", sequence),
        sequence,
        timestamp: 10 * sequence,
        group_id: group as u32,
        priority: 1,
        data: vec![sequence as u8],
    }
}

fn actor() -> StreamActorState {
    StreamActorState::new(StreamId { bytes: [9; 16] }, "/ns".to_string())
}

fn sequences(action: StreamAction) -> Vec<u64> {
    match action {
        StreamAction::Replay { mut replay, .. } => {
            let mut out = Vec::new();
            while let Some(o) = replay.next() {
                out.push(o.sequence);
            }
            out
        }
        _ => panic!("no replay"),
    }
}

fn recipients(action: StreamAction) -> Vec<NodeId> {
    match action {
        StreamAction::Send { mut to, .. } => {
            to.sort_by_key(|n| n.bytes);
            to
        }
        StreamAction::Nothing => Vec::new(),
        _ => panic!("nothing to send"),
    }
}

#[test]
fn namespaces_in_normal_form() {
    for (given, expected) in [
        ("", "/"),
        ("/", "/"),
        ("//", "/"),
        ("live", "/live"),
        ("/live", "/live"),
        ("/live/", "/live"),
        ("//live///video//", "/live/video"),
        ("a//b", "/a/b"),
        ("/ü/", "/ü"),
    ] {
        assert_eq!(normalize_namespace(given), expected);
        assert_eq!(normalize_namespace(expected), expected);
        assert_eq!(normalize_namespace(&format!("/{}", given)), expected);
        assert_eq!(normalize_namespace(&format!("{}/", given)), expected);
    }
}

#[test]
fn streams_are_found_under_every_spelling() {
    let id = StreamId { bytes: [1; 16] };
    let mut r = StreamRegistry::new();
    assert!(r.has_next());
    assert!(r.find(&id, "live").is_none());
    match r.subscribe_to_stream(&id, "live//video/") {
        Slot::New { actor, namespace } => assert_eq!((actor, namespace.as_str()), (0, "/live/video")),
        other => panic!("{:?}", other),
    }
    for spelling in ["live//video/", "/live/video", "live/video", "//live/video//"] {
        assert_eq!(r.find(&id, spelling), Some(0));
        assert!(matches!(r.subscribe_to_stream(&id, spelling), Slot::Existing { actor: 0 }));
    }
    assert!(r.find(&id, "/live").is_none());
    assert!(r.find(&StreamId { bytes: [2; 16] }, "/live/video").is_none());
    assert!(matches!(r.subscribe_to_stream(&id, "/live"), Slot::New { actor: 1, .. }));
    assert_eq!(r.find(&id, "/live/video"), Some(0));
}

#[test]
fn registering_a_stream() {
    let id = StreamId { bytes: [1; 16] };
    let mut r = StreamRegistry::new();
    match r.register_stream(node(1), id, "a/") {
        Registration::Create { actor, namespace, ready } => {
            assert_eq!((actor, namespace.as_str()), (0, "/a"));
            assert!(ready.same(&ConnectionState::Ready {
                node_id: node(1),
                stream_id: id,
                namespace: "/a".to_string(),
            }));
        }
        other => panic!("{:?}", other),
    }
    assert!(matches!(r.register_stream(node(1), id, "/a"), Registration::Reuse { actor: 0 }));
    assert!(matches!(r.subscribe_to_stream(&id, "a"), Slot::Existing { actor: 0 }));
}

#[test]
fn only_news_is_told() {
    let mut t = ConnectionTracker::new();
    assert!(t.current().same(&ConnectionState::WaitingForPeer));
    assert!(t.update_connection_state(ConnectionState::WaitingForPeer).is_none());
    assert!(t.signal_connection_event(ConnectionEvent::PeerConnected(node(1))).is_some());
    assert!(t.signal_connection_event(ConnectionEvent::PeerConnected(node(1))).is_none());
    assert!(t.signal_connection_event(ConnectionEvent::PeerConnected(node(2))).is_some());
    let ready = |ns: &str| ConnectionEvent::StreamReady {
        node_id: node(1),
        stream_id: StreamId { bytes: [3; 16] },
        namespace: ns.to_string(),
    };
    let told = t.signal_connection_event(ready("/a")).unwrap();
    assert!(told.same(t.current()));
    assert!(t.signal_connection_event(ready("/a")).is_none());
    assert!(t.signal_connection_event(ready("/b")).is_some());
    assert!(!t.current().same(&ConnectionState::Connected(node(1))));
}

#[test]
fn objects_go_to_whoever_wants_them_and_has_a_stream() {
    let mut a = actor();
    a.handle(StreamCommand::Subscribe { node_id: node(1), group_id: 0 });
    a.handle(StreamCommand::Subscribe { node_id: node(2), group_id: MEDIA_TYPE_VIDEO as u32 });
    a.handle(StreamCommand::Subscribe { node_id: node(3), group_id: MEDIA_TYPE_AUDIO as u32 });
    a.handle(StreamCommand::Subscribe { node_id: node(4), group_id: 0 });
    for n in 1..4 {
        a.handle(StreamCommand::SetDataStream { node_id: node(n) });
    }
    let to = recipients(a.handle(StreamCommand::PublishObject(object(1, MEDIA_TYPE_VIDEO))));
    assert_eq!(to, vec![node(1), node(2)]);
    let to = recipients(a.handle(StreamCommand::PublishObject(object(2, MEDIA_TYPE_AUDIO))));
    assert_eq!(to, vec![node(1), node(3)]);

    a.handle(StreamCommand::Unsubscribe(node(1)));
    let to = recipients(a.handle(StreamCommand::PublishObject(object(3, MEDIA_TYPE_VIDEO))));
    assert_eq!(to, vec![node(2)]);

    a.handle(StreamCommand::Subscribe { node_id: node(2), group_id: 0 });
    let to = recipients(a.handle(StreamCommand::PublishObject(object(4, MEDIA_TYPE_VIDEO))));
    assert_eq!(to, Vec::<NodeId>::new());
}

#[test]
fn a_new_data_stream_gets_the_segment_and_the_window() {
    let mut a = actor();
    a.handle(StreamCommand::PublishObject(object(0, MEDIA_TYPE_INIT)));
    for i in 1..=150 {
        a.handle(StreamCommand::PublishObject(object(i, MEDIA_TYPE_VIDEO)));
    }
    a.handle(StreamCommand::Subscribe { node_id: node(1), group_id: 0 });
    let sent = sequences(a.handle(StreamCommand::SetDataStream { node_id: node(1) }));
    let mut expected = vec![0];
    expected.extend(51..=150);
    assert_eq!(sent, expected);

    a.handle(StreamCommand::Subscribe { node_id: node(2), group_id: MEDIA_TYPE_VIDEO as u32 });
    let sent = sequences(a.handle(StreamCommand::SetDataStream { node_id: node(2) }));
    assert_eq!(sent, (51..=150).collect::<Vec<u64>>());

    a.handle(StreamCommand::Subscribe { node_id: node(3), group_id: MEDIA_TYPE_AUDIO as u32 });
    let sent = sequences(a.handle(StreamCommand::SetDataStream { node_id: node(3) }));
    assert_eq!(sent, Vec::<u64>::new());
}

#[test]
fn a_segment_in_the_window_is_sent_twice() {
    let mut a = actor();
    a.handle(StreamCommand::PublishObject(object(0, MEDIA_TYPE_INIT)));
    a.handle(StreamCommand::PublishObject(object(1, MEDIA_TYPE_VIDEO)));
    a.handle(StreamCommand::Subscribe { node_id: node(1), group_id: 0 });
    let sent = sequences(a.handle(StreamCommand::SetDataStream { node_id: node(1) }));
    assert_eq!(sent, vec![0, 0, 1]);
}

#[test]
fn a_replay_stops_at_the_first_loss_behind_the_segment() {
    let mut a = actor();
    a.handle(StreamCommand::PublishObject(object(0, MEDIA_TYPE_INIT)));
    for i in 1..5 {
        a.handle(StreamCommand::PublishObject(object(i, MEDIA_TYPE_VIDEO)));
    }
    a.handle(StreamCommand::Subscribe { node_id: node(1), group_id: 0 });
    match a.handle(StreamCommand::SetDataStream { node_id: node(1) }) {
        StreamAction::Replay { node_id, mut replay } => {
            assert_eq!(node_id, node(1));
            assert_eq!(replay.next().unwrap().sequence, 0);
            replay.failed();
            assert_eq!(replay.next().unwrap().sequence, 0);
            assert_eq!(replay.next().unwrap().sequence, 1);
            replay.failed();
            assert!(replay.next().is_none());
        }
        _ => panic!("no replay"),
    }
    let to = recipients(a.handle(StreamCommand::PublishObject(object(9, MEDIA_TYPE_VIDEO))));
    assert_eq!(to, vec![node(1)]);
}

#[test]
fn a_data_stream_of_a_stranger_is_finished() {
    let mut a = actor();
    assert!(matches!(
        a.handle(StreamCommand::SetDataStream { node_id: node(1) }),
        StreamAction::Finish { .. }
    ));
    assert!(matches!(
        a.handle(StreamCommand::Unsubscribe(node(1))),
        StreamAction::Release { .. }
    ));
}

#[test]
fn retransmission_on_request() {
    let mut a = actor();
    for i in 0..120 {
        a.handle(StreamCommand::PublishObject(object(i, MEDIA_TYPE_VIDEO)));
    }
    let request = |n: u8, sequence: u64| StreamCommand::RequestRetransmission {
        node_id: node(n),
        sequence,
    };
    assert!(matches!(a.handle(request(1, 50)), StreamAction::Nothing));
    a.handle(StreamCommand::Subscribe { node_id: node(1), group_id: 0 });
    assert!(matches!(a.handle(request(1, 50)), StreamAction::Nothing));
    a.handle(StreamCommand::SetDataStream { node_id: node(1) });
    match a.handle(request(1, 50)) {
        StreamAction::Send { object, to } => {
            assert_eq!(object.sequence, 50);
            assert_eq!(to, vec![node(1)]);
        }
        _ => panic!("nothing sent"),
    }
    assert!(matches!(a.handle(request(1, 19)), StreamAction::Nothing));
    assert!(matches!(a.handle(request(1, 20)), StreamAction::Send { .. }));

    a.handle(StreamCommand::Subscribe { node_id: node(2), group_id: MEDIA_TYPE_AUDIO as u32 });
    a.handle(StreamCommand::SetDataStream { node_id: node(2) });
    assert!(matches!(a.handle(request(2, 50)), StreamAction::Nothing));
}

#[test]
fn bytes_of_a_frame() {
    let o = MoqObject {
        name: "ab".to_string(),
        sequence: 258,
        timestamp: 3,
        group_id: 4,
        priority: 5,
        data: vec![6, 7],
    };
    let expected = vec![
        0, 0, 0, 31, 0, 2, b'a', b'b', 0, 0, 0, 0, 0, 0, 1, 2, 0, 0, 0, 0, 0, 0, 0, 3, 0, 0, 0, 4,
        5, 0, 0, 0, 2, 6, 7,
    ];
    assert_eq!(serialize_object(&o).unwrap(), expected);
    assert!(matches!(send_object(&o), SendStep::Write(bytes) if bytes == expected));
}

#[test]
fn names_that_do_not_fit_a_frame() {
    let mut o = object(1, 1);
    o.name = "n".repeat(65_535);
    assert!(serialize_object(&o).is_ok());
    o.name = "n".repeat(65_536);
    assert_eq!(serialize_object(&o), Err(FrameError::NameTooLong(65_536)));
    assert!(matches!(
        send_object(&o),
        SendStep::Lost(SendError::Frame(FrameError::NameTooLong(65_536)))
    ));
}

#[test]
fn frame_errors_in_words() {
    assert_eq!(
        FrameError::NameTooLong(65_536).message(),
        "Object name too long: 65536 bytes (max 65535)"
    );
    assert_eq!(
        FrameError::DataTooLarge(4_294_967_296).message(),
        "Object data too large: 4294967296 bytes (max 4294967295)"
    );
    assert_eq!(
        FrameError::TooLarge(4_294_967_300).message(),
        "Total serialized object size exceeds limit: 4294967300 bytes"
    );
}

#[test]
fn steps_of_sending() {
    assert_eq!((OBJECT_SEND_TIMEOUT, OBJECT_FLUSH_TIMEOUT), (5, 2));
    assert!(matches!(after_write(IoOutcome::Done), SendStep::Flush));
    assert!(matches!(after_write(IoOutcome::Failed), SendStep::Lost(SendError::WriteFailed)));
    assert!(matches!(after_write(IoOutcome::TimedOut), SendStep::Lost(SendError::WriteTimedOut)));
    assert!(matches!(after_flush(IoOutcome::Done), SendStep::Sent));
    assert!(matches!(after_flush(IoOutcome::Failed), SendStep::Lost(SendError::FlushFailed)));
    assert!(matches!(after_flush(IoOutcome::TimedOut), SendStep::Lost(SendError::FlushTimedOut)));
}
