//! Audio sources: from frames to chunks.

use crate::proto::media::{AudioChunkView, AudioInitView};
use crate::proto::{AudioChunk, AudioInit};
use crate::video::low_u64;
use vstd::prelude::*;

verus! {

/// One encoded frame of audio.
#[derive(Debug)]
pub struct AudioFrame {
    pub data: Vec<u8>,
    /// Microseconds since the epoch.
    pub timestamp: u128,
    /// Microseconds.
    pub duration: u128,
}

impl Clone for AudioFrame {
    fn clone(&self) -> (r: Self)
        ensures
            r.data@ == self.data@,
            r.timestamp == self.timestamp,
            r.duration == self.duration,
    {
        let data = self.data.clone();
        assert(data@ =~= self.data@);
        AudioFrame { data, timestamp: self.timestamp, duration: self.duration }
    }
}

/// What an audio stream is like.
#[derive(Debug)]
pub struct AudioConfig {
    pub codec: String,
    pub mime_type: String,
    /// Bits per second.
    pub bitrate: u32,
    /// Samples per second.
    pub sample_rate: u32,
    pub channels: u8,
    /// Microseconds.
    pub frame_duration: Option<u32>,
}

impl Default for AudioConfig {
    fn default() -> (c: Self)
        ensures
            c.codec@ == "opus"@,
            c.mime_type@ == "audio/opus"@,
            c.bitrate == 128_000,
            c.sample_rate == 48_000,
            c.channels == 2,
            c.frame_duration is None,
    {
        AudioConfig {
            codec: "opus".to_string(),
            mime_type: "audio/opus".to_string(),
            bitrate: 128_000,
            sample_rate: 48_000,
            channels: 2,
            frame_duration: None,
        }
    }
}

impl Clone for AudioConfig {
    fn clone(&self) -> (r: Self)
        ensures
            r == *self,
    {
        AudioConfig {
            codec: self.codec.clone(),
            mime_type: self.mime_type.clone(),
            bitrate: self.bitrate,
            sample_rate: self.sample_rate,
            channels: self.channels,
            frame_duration: self.frame_duration,
        }
    }
}

/// The initialization data of an audio stream.
pub open spec fn init_from(config: AudioConfig, init_segment: Seq<u8>) -> AudioInitView {
    AudioInitView {
        codec: config.codec@,
        mime_type: config.mime_type@,
        sample_rate: config.sample_rate,
        channels: config.channels,
        bitrate: config.bitrate,
        init_segment,
    }
}

/// The initialization data of an audio stream.
pub fn audio_init(config: &AudioConfig, init_segment: Vec<u8>) -> (init: AudioInit)
    ensures
        init@ == init_from(*config, init_segment@),
{
    AudioInit {
        codec: config.codec.clone(),
        mime_type: config.mime_type.clone(),
        sample_rate: config.sample_rate,
        channels: config.channels,
        bitrate: config.bitrate,
        init_segment,
    }
}

/// The chunk for a frame. Every frame of audio can be decoded by itself.
pub open spec fn frame_chunk(f: AudioFrame) -> AudioChunkView {
    AudioChunkView {
        timestamp: low_u64(f.timestamp),
        duration: (f.duration % 0x1_0000_0000) as u32,
        is_key: true,
        data: f.data@,
    }
}

/// The chunk for a frame.
pub fn send_frame(frame: AudioFrame) -> (c: AudioChunk)
    ensures
        c@ == frame_chunk(frame),
        frame.timestamp <= u64::MAX ==> c.timestamp == frame.timestamp,
        frame.duration <= u32::MAX ==> c.duration == frame.duration,
        c.is_key,
        c.data@ == frame.data@,
{
    AudioChunk {
        timestamp: (frame.timestamp % 0x1_0000_0000_0000_0000) as u64,
        duration: (frame.duration % 0x1_0000_0000) as u32,
        is_key: true,
        data: frame.data,
    }
}

/// What happens to a running stream.
#[derive(Debug)]
pub enum AudioEvent {
    /// A frame is asked for.
    Requested,
    /// No frame will be asked for any more.
    RequestsClosed,
    /// The source has given a frame.
    Frame(AudioFrame),
    /// The source has failed.
    SourceFailed,
    /// The chunk is on its way.
    Sent,
    /// The chunk could not be sent.
    SendFailed,
}

/// What is to be done because of an event.
#[derive(Debug)]
pub enum AudioAction {
    /// Get the next frame from the source.
    NextFrame,
    /// Send the chunk.
    Send(AudioChunk),
    /// Ask for a frame.
    RequestNow,
    /// Wait to be asked.
    Wait,
    /// End the stream.
    Stop,
}

/// Whether an event calls for the action.
pub open spec fn is_step(event: AudioEvent, action: AudioAction) -> bool {
    match event {
        AudioEvent::Requested => action is NextFrame,
        AudioEvent::RequestsClosed => action is Stop,
        AudioEvent::Frame(frame) => action matches AudioAction::Send(c) && c@ == frame_chunk(frame),
        AudioEvent::SourceFailed => action is Wait,
        AudioEvent::Sent => action is RequestNow,
        AudioEvent::SendFailed => action is Stop,
    }
}

/// Handles one event of a running stream. A failing source is not asked again.
pub fn handle(event: AudioEvent) -> (action: AudioAction)
    ensures
        is_step(event, action),
        match event {
            AudioEvent::Requested => action is NextFrame,
            AudioEvent::RequestsClosed => action is Stop,
            AudioEvent::Frame(frame) => {
                &&& action matches AudioAction::Send(c)
                &&& c@ == frame_chunk(frame)
                &&& frame.timestamp <= u64::MAX ==> c.timestamp == frame.timestamp
                &&& frame.duration <= u32::MAX ==> c.duration == frame.duration
                &&& c.is_key
                &&& c.data@ == frame.data@
            },
            AudioEvent::SourceFailed => action is Wait,
            AudioEvent::Sent => action is RequestNow,
            AudioEvent::SendFailed => action is Stop,
        },
{
    match event {
        AudioEvent::Requested => AudioAction::NextFrame,
        AudioEvent::RequestsClosed => AudioAction::Stop,
        AudioEvent::Frame(frame) => AudioAction::Send(send_frame(frame)),
        AudioEvent::SourceFailed => AudioAction::Wait,
        AudioEvent::Sent => AudioAction::RequestNow,
        AudioEvent::SendFailed => AudioAction::Stop,
    }
}

/// Law: the chunk made for a frame carries the frame: its time and its duration as numbers, for
/// all that sixty-four and thirty-two bits can count, and its bytes. It can be decoded by itself.
pub proof fn law_chunk_carries_the_frame(f: AudioFrame)
    ensures
        f.timestamp <= 0xffff_ffff_ffff_ffff ==> frame_chunk(f).timestamp == f.timestamp,
        f.duration <= 0xffff_ffff ==> frame_chunk(f).duration == f.duration,
        frame_chunk(f).data == f.data@,
        frame_chunk(f).is_key,
{
}

/// Law: how a running stream goes on. A frame is fetched when it is asked for and sent as a chunk
/// that carries it; the next is asked for once the chunk is on its way. A source that fails is not
/// asked again by itself. The stream ends where nothing more is asked for or a chunk cannot be
/// sent.
pub proof fn law_how_a_stream_runs(event: AudioEvent, action: AudioAction)
    requires
        is_step(event, action),
    ensures
        event is Requested ==> action is NextFrame,
        event is Sent ==> action is RequestNow,
        event is SourceFailed ==> action is Wait,
        event is RequestsClosed || event is SendFailed ==> action is Stop,
        event matches AudioEvent::Frame(frame) ==> {
            &&& action matches AudioAction::Send(c)
            &&& frame.timestamp <= 0xffff_ffff_ffff_ffff ==> c.timestamp == frame.timestamp
            &&& frame.duration <= 0xffff_ffff ==> c.duration == frame.duration
            &&& c.is_key
            &&& c.data@ == frame.data@
        },
{
}

/// Law: the initialization data of a stream says what its configuration says.
pub proof fn law_init_says_what_it_is_from(config: AudioConfig, init_segment: Seq<u8>)
    ensures
        init_from(config, init_segment).codec == config.codec@,
        init_from(config, init_segment).mime_type == config.mime_type@,
        init_from(config, init_segment).sample_rate == config.sample_rate,
        init_from(config, init_segment).channels == config.channels,
        init_from(config, init_segment).bitrate == config.bitrate,
        init_from(config, init_segment).init_segment == init_segment,
{
}

} // verus!
