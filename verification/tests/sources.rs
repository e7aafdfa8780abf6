//! Video and audio sources from outside.

use iroh_moq::audio::{audio_init, handle, send_frame, AudioAction, AudioConfig, AudioEvent, AudioFrame};
use iroh_moq::video::{source_init, FrameCounter, VideoAction, VideoEvent, VideoFrame, VideoStream};

fn frame(timestamp: u128) -> VideoFrame {
    VideoFrame { data: vec![1, 2], width: 4, height: 3, timestamp }
}

#[test]
fn frames_sent_by_hand() {
    let mut counter = FrameCounter::new(3);
    assert!(counter.can_send());
    let keys: Vec<bool> = (0..7).map(|i| counter.send_frame(frame(i), 33).is_keyframe).collect();
    assert_eq!(keys, vec![true, false, false, true, false, false, true]);
    assert!(!FrameCounter::new(0).can_send());
    let mut every = FrameCounter::new(1);
    for i in 1..5 {
        assert!(every.send_frame(frame(i), 33).is_keyframe);
    }
}

#[test]
fn a_frame_that_is_not_sent_is_counted() {
    let mut counter = FrameCounter::new(3);
    counter.skip_frame();
    let keys: Vec<bool> = (0..4).map(|i| counter.send_frame(frame(i), 33).is_keyframe).collect();
    assert_eq!(keys, vec![false, false, true, false]);
}

#[test]
fn a_running_video_stream() {
    let mut stream = VideoStream::new(2);
    let mut keys = Vec::new();
    for i in 0..5u128 {
        assert!(matches!(stream.handle(VideoEvent::Requested), VideoAction::NextFrame));
        match stream.handle(VideoEvent::Frame(frame(i), 33_333)) {
            VideoAction::Send(c) => {
                assert_eq!((c.timestamp, c.duration, c.dependency_sequence), (i as u64, 33_333, None));
                assert_eq!(c.data, vec![1, 2]);
                keys.push(c.is_keyframe);
            }
            other => panic!("{:?}", other),
        }
        assert!(matches!(stream.handle(VideoEvent::Sent), VideoAction::RequestLater));
    }
    assert_eq!(keys, vec![true, false, true, false, true]);
    assert_eq!(stream.frame_count(), 5);
    assert!(matches!(stream.handle(VideoEvent::SourceFailed), VideoAction::RequestNow));
    assert!(matches!(stream.handle(VideoEvent::SendFailed), VideoAction::Stop));
    assert!(matches!(stream.handle(VideoEvent::RequestsClosed), VideoAction::Stop));
    assert_eq!(stream.frame_count(), 5);
}

#[test]
fn initialization_data_from_a_source() {
    let init = source_init(
        "avc1.64001f".to_string(),
        "video/mp4".to_string(),
        1920,
        1080,
        30,
        5_000_000,
        vec![7],
    );
    assert_eq!((init.width, init.height, init.frame_rate, init.bitrate), (1920, 1080, 30, 5_000_000));
    assert_eq!(init.init_segment, vec![7]);
}

#[test]
fn audio_defaults() {
    let c = AudioConfig::default();
    assert_eq!((c.codec.as_str(), c.mime_type.as_str()), ("opus", "audio/opus"));
    assert_eq!((c.bitrate, c.sample_rate, c.channels), (128_000, 48_000, 2));
    assert!(c.frame_duration.is_none());
    let init = audio_init(&c, vec![9]);
    assert_eq!((init.codec.as_str(), init.sample_rate, init.channels), ("opus", 48_000, 2));
    assert_eq!(init.init_segment, vec![9]);
}

#[test]
fn audio_frames() {
    let c = send_frame(AudioFrame { data: vec![5], timestamp: 6, duration: 0x1_0000_0007 });
    assert_eq!((c.timestamp, c.duration, c.is_key), (6, 7, true));
    assert_eq!(c.data, vec![5]);
}

#[test]
fn a_running_audio_stream() {
    assert!(matches!(handle(AudioEvent::Requested), AudioAction::NextFrame));
    assert!(matches!(
        handle(AudioEvent::Frame(AudioFrame { data: vec![], timestamp: 1, duration: 2 })),
        AudioAction::Send(c) if c.is_key && c.timestamp == 1 && c.duration == 2
    ));
    assert!(matches!(handle(AudioEvent::Sent), AudioAction::RequestNow));
    assert!(matches!(handle(AudioEvent::SourceFailed), AudioAction::Wait));
    assert!(matches!(handle(AudioEvent::SendFailed), AudioAction::Stop));
    assert!(matches!(handle(AudioEvent::RequestsClosed), AudioAction::Stop));
}
