//! Media: initialization data, chunks, and their passage through objects.

use super::{MoqObject, ObjectView, ProtoError, MEDIA_TYPE_AUDIO, MEDIA_TYPE_VIDEO};
use crate::buffer::{
    buffer_from, buffer_len, contents, get_u32, get_u64, get_u8, has_room, new_buffer, peek_bytes,
    put_bytes, put_u32, put_u64, put_u8,
};
use crate::wire::{
    be_bytes, be_value, group_reading, law_number_comes_back, lemma_capacities,
};
use bytes::BytesMut;
use vstd::prelude::*;

verus! {

broadcast use group_reading;

/// What a player needs before the first video chunk.
#[derive(Debug)]
pub struct MediaInit {
    /// For example `avc1.64001f`.
    pub codec: String,
    /// For example `video/mp4`.
    pub mime_type: String,
    pub width: u32,
    pub height: u32,
    /// Whole frames per second.
    pub frame_rate: u32,
    /// Bits per second.
    pub bitrate: u32,
    /// The initialization segment of the container.
    pub init_segment: Vec<u8>,
}

/// What initialization data holds, as mathematical values.
#[verifier::ext_equal]
pub struct MediaInitView {
    pub codec: Seq<char>,
    pub mime_type: Seq<char>,
    pub width: u32,
    pub height: u32,
    pub frame_rate: u32,
    pub bitrate: u32,
    pub init_segment: Seq<u8>,
}

impl View for MediaInit {
    type V = MediaInitView;

    open spec fn view(&self) -> MediaInitView {
        MediaInitView {
            codec: self.codec@,
            mime_type: self.mime_type@,
            width: self.width,
            height: self.height,
            frame_rate: self.frame_rate,
            bitrate: self.bitrate,
            init_segment: self.init_segment@,
        }
    }
}

impl Clone for MediaInit {
    fn clone(&self) -> (r: Self)
        ensures
            r@ == self@,
    {
        let init_segment = self.init_segment.clone();
        assert(init_segment@ =~= self.init_segment@);
        MediaInit {
            codec: self.codec.clone(),
            mime_type: self.mime_type.clone(),
            width: self.width,
            height: self.height,
            frame_rate: self.frame_rate,
            bitrate: self.bitrate,
            init_segment,
        }
    }
}

/// A piece of video.
#[derive(Debug)]
pub struct VideoChunk {
    /// When to present it.
    pub timestamp: u64,
    pub duration: u32,
    /// Whether it can be decoded by itself.
    pub is_keyframe: bool,
    /// The sequence number of the chunk that it depends on.
    pub dependency_sequence: Option<u64>,
    pub data: Vec<u8>,
}

/// What a video chunk holds, as mathematical values.
#[verifier::ext_equal]
pub struct VideoChunkView {
    pub timestamp: u64,
    pub duration: u32,
    pub is_keyframe: bool,
    pub dependency_sequence: Option<u64>,
    pub data: Seq<u8>,
}

impl View for VideoChunk {
    type V = VideoChunkView;

    open spec fn view(&self) -> VideoChunkView {
        VideoChunkView {
            timestamp: self.timestamp,
            duration: self.duration,
            is_keyframe: self.is_keyframe,
            dependency_sequence: self.dependency_sequence,
            data: self.data@,
        }
    }
}

impl Clone for VideoChunk {
    fn clone(&self) -> (r: Self)
        ensures
            r@ == self@,
    {
        let data = self.data.clone();
        assert(data@ =~= self.data@);
        VideoChunk {
            timestamp: self.timestamp,
            duration: self.duration,
            is_keyframe: self.is_keyframe,
            dependency_sequence: self.dependency_sequence,
            data,
        }
    }
}

/// What a player needs before the first audio chunk.
#[derive(Debug)]
pub struct AudioInit {
    /// For example `opus`.
    pub codec: String,
    /// For example `audio/opus`.
    pub mime_type: String,
    /// Samples per second.
    pub sample_rate: u32,
    pub channels: u8,
    /// Bits per second.
    pub bitrate: u32,
    /// What the codec needs to start.
    pub init_segment: Vec<u8>,
}

/// What audio initialization data holds, as mathematical values.
#[verifier::ext_equal]
pub struct AudioInitView {
    pub codec: Seq<char>,
    pub mime_type: Seq<char>,
    pub sample_rate: u32,
    pub channels: u8,
    pub bitrate: u32,
    pub init_segment: Seq<u8>,
}

impl View for AudioInit {
    type V = AudioInitView;

    open spec fn view(&self) -> AudioInitView {
        AudioInitView {
            codec: self.codec@,
            mime_type: self.mime_type@,
            sample_rate: self.sample_rate,
            channels: self.channels,
            bitrate: self.bitrate,
            init_segment: self.init_segment@,
        }
    }
}

impl Clone for AudioInit {
    fn clone(&self) -> (r: Self)
        ensures
            r@ == self@,
    {
        let init_segment = self.init_segment.clone();
        assert(init_segment@ =~= self.init_segment@);
        AudioInit {
            codec: self.codec.clone(),
            mime_type: self.mime_type.clone(),
            sample_rate: self.sample_rate,
            channels: self.channels,
            bitrate: self.bitrate,
            init_segment,
        }
    }
}

/// A piece of audio.
#[derive(Debug)]
pub struct AudioChunk {
    /// Microseconds.
    pub timestamp: u64,
    /// Microseconds.
    pub duration: u32,
    /// Whether it can be decoded by itself.
    pub is_key: bool,
    pub data: Vec<u8>,
}

/// What an audio chunk holds, as mathematical values.
#[verifier::ext_equal]
pub struct AudioChunkView {
    pub timestamp: u64,
    pub duration: u32,
    pub is_key: bool,
    pub data: Seq<u8>,
}

impl View for AudioChunk {
    type V = AudioChunkView;

    open spec fn view(&self) -> AudioChunkView {
        AudioChunkView {
            timestamp: self.timestamp,
            duration: self.duration,
            is_key: self.is_key,
            data: self.data@,
        }
    }
}

impl Clone for AudioChunk {
    fn clone(&self) -> (r: Self)
        ensures
            r@ == self@,
    {
        let data = self.data.clone();
        assert(data@ =~= self.data@);
        AudioChunk {
            timestamp: self.timestamp,
            duration: self.duration,
            is_key: self.is_key,
            data,
        }
    }
}

/// A flag as a byte.
pub open spec fn flag(b: bool) -> u8 {
    if b {
        1
    } else {
        0
    }
}

/// The dependency of a video chunk as bytes: a flag, and the number where there is one.
pub open spec fn dependency_bytes(dependency: Option<u64>) -> Seq<u8> {
    match dependency {
        Some(sequence) => seq![1u8] + be_bytes(sequence as nat, 8),
        None => seq![0u8],
    }
}

/// The payload of the object that carries a video chunk.
pub open spec fn video_payload(c: VideoChunkView) -> Seq<u8> {
    be_bytes(c.timestamp as nat, 8) + be_bytes(c.duration as nat, 4) + seq![flag(c.is_keyframe)]
        + dependency_bytes(c.dependency_sequence) + c.data
}

/// The video chunk that a payload carries. A payload that ends before the flag of the dependency
/// is too small.
pub open spec fn parse_video(b: Seq<u8>) -> Result<VideoChunkView, ProtoError> {
    if b.len() < 14 {
        Err(ProtoError::VideoChunkTooSmall)
    } else if b[13] == 1 && b.len() < 22 {
        Err(ProtoError::InvalidDependency)
    } else {
        Ok(
            VideoChunkView {
                timestamp: be_value(b.subrange(0, 8)) as u64,
                duration: be_value(b.subrange(8, 12)) as u32,
                is_keyframe: b[12] == 1,
                dependency_sequence: if b[13] == 1 {
                    Some(be_value(b.subrange(14, 22)) as u64)
                } else {
                    None
                },
                data: if b[13] == 1 {
                    b.skip(22)
                } else {
                    b.skip(14)
                },
            },
        )
    }
}

/// The object that carries a video chunk.
pub open spec fn video_object(name: Seq<char>, sequence: u64, c: VideoChunkView) -> ObjectView {
    ObjectView {
        name,
        sequence,
        timestamp: c.timestamp,
        group_id: MEDIA_TYPE_VIDEO as u32,
        priority: if c.is_keyframe {
            255
        } else {
            128
        },
        data: video_payload(c),
    }
}

/// The payload of the object that carries an audio chunk.
pub open spec fn audio_payload(c: AudioChunkView) -> Seq<u8> {
    be_bytes(c.timestamp as nat, 8) + be_bytes(c.duration as nat, 4) + seq![flag(c.is_key)] + c.data
}

/// The audio chunk that an object carries.
pub open spec fn parse_audio(o: ObjectView) -> Result<AudioChunkView, ProtoError> {
    if o.group_id != MEDIA_TYPE_AUDIO {
        Err(ProtoError::NotAudio)
    } else if o.data.len() < 13 {
        Err(ProtoError::AudioChunkTooSmall)
    } else {
        Ok(
            AudioChunkView {
                timestamp: be_value(o.data.subrange(0, 8)) as u64,
                duration: be_value(o.data.subrange(8, 12)) as u32,
                is_key: o.data[12] == 1,
                data: o.data.skip(13),
            },
        )
    }
}

/// All unread bytes of a buffer.
fn all_bytes(buffer: &BytesMut) -> (v: Vec<u8>)
    ensures
        v@ == contents(*buffer),
{
    let v = peek_bytes(buffer, buffer_len(buffer));
    assert(v@ =~= contents(*buffer));
    v
}

impl MoqObject {
    /// An object that carries a video chunk. The group is always that of video.
    pub fn from_video_chunk(
        name: String,
        sequence: u64,
        chunk: VideoChunk,
        _group_id: u32,
    ) -> (o: Self)
        requires
            has_room(chunk.data@.len(), 22),
        ensures
            o@ == video_object(name@, sequence, chunk@),
    {
        let mut buffer = new_buffer();
        put_u64(&mut buffer, chunk.timestamp);
        put_u32(&mut buffer, chunk.duration);
        put_u8(
            &mut buffer,
            if chunk.is_keyframe {
                1
            } else {
                0
            },
        );
        if let Some(dep_seq) = chunk.dependency_sequence {
            put_u8(&mut buffer, 1);
            put_u64(&mut buffer, dep_seq);
        } else {
            put_u8(&mut buffer, 0);
        }
        put_bytes(&mut buffer, chunk.data.as_slice());
        assert(contents(buffer) =~= video_payload(chunk@));
        MoqObject {
            name,
            sequence,
            timestamp: chunk.timestamp,
            group_id: MEDIA_TYPE_VIDEO as u32,
            priority: if chunk.is_keyframe {
                255
            } else {
                128
            },
            data: all_bytes(&buffer),
        }
    }

    /// The video chunk that the object carries.
    pub fn to_video_chunk(&self) -> (r: Result<VideoChunk, ProtoError>)
        ensures
            match (r, parse_video(self.data@)) {
                (Ok(c), Ok(v)) => c@ == v,
                (Err(e), Err(f)) => e == f,
                _ => false,
            },
    {
        let ghost b = self.data@;
        let mut buffer = buffer_from(self.data.as_slice());
        assert(contents(buffer) =~= b.skip(0));
        if buffer_len(&buffer) < 14 {
            return Err(ProtoError::VideoChunkTooSmall);
        }
        let timestamp = get_u64(&mut buffer);
        let duration = get_u32(&mut buffer);
        let is_keyframe = get_u8(&mut buffer) == 1;
        let dependency_sequence = if get_u8(&mut buffer) == 1 {
            if buffer_len(&buffer) < 8 {
                return Err(ProtoError::InvalidDependency);
            }
            Some(get_u64(&mut buffer))
        } else {
            None
        };
        let data = all_bytes(&buffer);
        Ok(VideoChunk { timestamp, duration, is_keyframe, dependency_sequence, data })
    }

    /// An object that carries an audio chunk. The group is always that of audio.
    pub fn from_audio_chunk(
        name: String,
        sequence: u64,
        chunk: AudioChunk,
        _group_id: u32,
    ) -> (o: Self)
        requires
            has_room(chunk.data@.len(), 13),
        ensures
            o@ == (ObjectView {
                name: name@,
                sequence,
                timestamp: chunk.timestamp,
                group_id: MEDIA_TYPE_AUDIO as u32,
                priority: 128,
                data: audio_payload(chunk@),
            }),
    {
        let mut buffer = new_buffer();
        put_u64(&mut buffer, chunk.timestamp);
        put_u32(&mut buffer, chunk.duration);
        put_u8(
            &mut buffer,
            if chunk.is_key {
                1
            } else {
                0
            },
        );
        put_bytes(&mut buffer, chunk.data.as_slice());
        assert(contents(buffer) =~= audio_payload(chunk@));
        MoqObject {
            name,
            sequence,
            timestamp: chunk.timestamp,
            group_id: MEDIA_TYPE_AUDIO as u32,
            priority: 128,
            data: all_bytes(&buffer),
        }
    }

    /// The audio chunk that the object carries, if it is audio.
    pub fn to_audio_chunk(&self) -> (r: Result<AudioChunk, ProtoError>)
        ensures
            match (r, parse_audio(self@)) {
                (Ok(c), Ok(v)) => c@ == v,
                (Err(e), Err(f)) => e == f,
                _ => false,
            },
    {
        if self.group_id != MEDIA_TYPE_AUDIO as u32 {
            return Err(ProtoError::NotAudio);
        }
        let ghost b = self.data@;
        let mut buf = buffer_from(self.data.as_slice());
        assert(contents(buf) =~= b.skip(0));
        if buffer_len(&buf) < 13 {
            return Err(ProtoError::AudioChunkTooSmall);
        }
        let timestamp = get_u64(&mut buf);
        let duration = get_u32(&mut buf);
        let is_key = get_u8(&mut buf) == 1;
        let data = all_bytes(&buf);
        Ok(AudioChunk { timestamp, duration, is_key, data })
    }
}

/// Law: a video chunk comes out of its object as it went in.
pub proof fn law_video_round_trip(c: VideoChunkView)
    ensures
        parse_video(video_payload(c)) == Ok::<VideoChunkView, ProtoError>(c),
{
    lemma_capacities();
    let b = video_payload(c);
    law_number_comes_back(c.timestamp as nat, 8);
    law_number_comes_back(c.duration as nat, 4);
    assert(b.subrange(0, 8) =~= be_bytes(c.timestamp as nat, 8));
    assert(b.subrange(8, 12) =~= be_bytes(c.duration as nat, 4));
    match c.dependency_sequence {
        Some(sequence) => {
            law_number_comes_back(sequence as nat, 8);
            assert(b.subrange(14, 22) =~= be_bytes(sequence as nat, 8));
            assert(b.skip(22) =~= c.data);
        },
        None => {
            assert(b.skip(14) =~= c.data);
        },
    }
}

/// Law: an audio chunk comes out of its object as it went in.
pub proof fn law_audio_round_trip(c: AudioChunkView, o: ObjectView)
    requires
        o.group_id == MEDIA_TYPE_AUDIO,
        o.data == audio_payload(c),
    ensures
        parse_audio(o) == Ok::<AudioChunkView, ProtoError>(c),
{
    lemma_capacities();
    let b = o.data;
    law_number_comes_back(c.timestamp as nat, 8);
    law_number_comes_back(c.duration as nat, 4);
    assert(b.subrange(0, 8) =~= be_bytes(c.timestamp as nat, 8));
    assert(b.subrange(8, 12) =~= be_bytes(c.duration as nat, 4));
    assert(b.skip(13) =~= c.data);
}

/// Law: the object that carries a video chunk is of group 1, has the chunk's time, and priority 255
/// where the chunk is a keyframe and 128 where it is not. The chunk can be read out of it as it
/// was.
pub proof fn law_video_as_object(name: Seq<char>, sequence: u64, c: VideoChunkView)
    ensures
        ({
            let o = video_object(name, sequence, c);
            &&& o.name == name
            &&& o.sequence == sequence
            &&& o.timestamp == c.timestamp
            &&& o.group_id == 1
            &&& c.is_keyframe ==> o.priority == 255
            &&& !c.is_keyframe ==> o.priority == 128
            &&& parse_video(o.data) == Ok::<VideoChunkView, ProtoError>(c)
        }),
{
    law_video_round_trip(c);
}

/// Law: where things stand in the payload of a video chunk: the time, the duration, a byte that is
/// 1 for a keyframe and else 0, a byte that is 1 where the chunk depends on another and else 0,
/// the number of that other if there is one, the bytes.
pub proof fn law_video_payload_layout(c: VideoChunkView)
    ensures
        ({
            let b = video_payload(c);
            let at: int = if c.dependency_sequence is Some { 22 } else { 14 };
            &&& b.len() == at + c.data.len()
            &&& be_value(b.subrange(0, 8)) == c.timestamp
            &&& be_value(b.subrange(8, 12)) == c.duration
            &&& b[12] == if c.is_keyframe { 1u8 } else { 0u8 }
            &&& b[13] == if c.dependency_sequence is Some { 1u8 } else { 0u8 }
            &&& c.dependency_sequence matches Some(d) ==> be_value(b.subrange(14, 22)) == d
            &&& b.skip(at) == c.data
        }),
{
    lemma_capacities();
    let b = video_payload(c);
    law_number_comes_back(c.timestamp as nat, 8);
    law_number_comes_back(c.duration as nat, 4);
    assert(b.subrange(0, 8) =~= be_bytes(c.timestamp as nat, 8));
    assert(b.subrange(8, 12) =~= be_bytes(c.duration as nat, 4));
    match c.dependency_sequence {
        Some(d) => {
            law_number_comes_back(d as nat, 8);
            assert(b.subrange(14, 22) =~= be_bytes(d as nat, 8));
            assert(b.skip(22) =~= c.data);
        },
        None => {
            assert(b.skip(14) =~= c.data);
        },
    }
}

/// Law: where things stand in the payload of an audio chunk: the time, the duration, a byte that
/// is 1 where the chunk can be decoded by itself and else 0, the bytes.
pub proof fn law_audio_payload_layout(c: AudioChunkView)
    ensures
        ({
            let b = audio_payload(c);
            &&& b.len() == 13 + c.data.len()
            &&& be_value(b.subrange(0, 8)) == c.timestamp
            &&& be_value(b.subrange(8, 12)) == c.duration
            &&& b[12] == if c.is_key { 1u8 } else { 0u8 }
            &&& b.skip(13) == c.data
        }),
{
    lemma_capacities();
    let b = audio_payload(c);
    law_number_comes_back(c.timestamp as nat, 8);
    law_number_comes_back(c.duration as nat, 4);
    assert(b.subrange(0, 8) =~= be_bytes(c.timestamp as nat, 8));
    assert(b.subrange(8, 12) =~= be_bytes(c.duration as nat, 4));
    assert(b.skip(13) =~= c.data);
}

/// Law: which payloads are read as chunks of video, and how, whatever wrote them.
pub proof fn law_video_is_read_by_place(b: Seq<u8>)
    ensures
        b.len() < 14 ==> parse_video(b) == Err::<VideoChunkView, ProtoError>(
            ProtoError::VideoChunkTooSmall,
        ),
        14 <= b.len() < 22 && b[13] == 1 ==> parse_video(b) == Err::<VideoChunkView, ProtoError>(
            ProtoError::InvalidDependency,
        ),
        b.len() >= 14 && (b[13] == 1 ==> b.len() >= 22) ==> {
            &&& parse_video(b) matches Ok(c)
            &&& c.timestamp == be_value(b.subrange(0, 8)) as u64
            &&& c.duration == be_value(b.subrange(8, 12)) as u32
            &&& c.is_keyframe == (b[12] == 1)
            &&& b[13] == 1 ==> c.dependency_sequence == Some(be_value(b.subrange(14, 22)) as u64)
                && c.data == b.skip(22)
            &&& b[13] != 1 ==> c.dependency_sequence is None && c.data == b.skip(14)
        },
{
}

/// Law: which objects are read as chunks of audio, and how, whatever wrote them.
pub proof fn law_audio_is_read_by_place(o: ObjectView)
    ensures
        o.group_id != 2 ==> parse_audio(o) == Err::<AudioChunkView, ProtoError>(
            ProtoError::NotAudio,
        ),
        o.group_id == 2 && o.data.len() < 13 ==> parse_audio(o) == Err::<AudioChunkView, ProtoError>(
            ProtoError::AudioChunkTooSmall,
        ),
        o.group_id == 2 && o.data.len() >= 13 ==> {
            &&& parse_audio(o) matches Ok(c)
            &&& c.timestamp == be_value(o.data.subrange(0, 8)) as u64
            &&& c.duration == be_value(o.data.subrange(8, 12)) as u32
            &&& c.is_key == (o.data[12] == 1)
            &&& c.data == o.data.skip(13)
        },
{
}

/// Law: media is shown with all that it holds.
pub proof fn law_media_is_shown(i: MediaInit, c: VideoChunk, j: AudioInit, d: AudioChunk)
    ensures
        i@.codec == i.codec@ && i@.mime_type == i.mime_type@ && i@.width == i.width && i@.height
            == i.height && i@.frame_rate == i.frame_rate && i@.bitrate == i.bitrate
            && i@.init_segment == i.init_segment@,
        c@.timestamp == c.timestamp && c@.duration == c.duration && c@.is_keyframe == c.is_keyframe
            && c@.dependency_sequence == c.dependency_sequence && c@.data == c.data@,
        j@.codec == j.codec@ && j@.mime_type == j.mime_type@ && j@.sample_rate == j.sample_rate
            && j@.channels == j.channels && j@.bitrate == j.bitrate && j@.init_segment
            == j.init_segment@,
        d@.timestamp == d.timestamp && d@.duration == d.duration && d@.is_key == d.is_key && d@.data
            == d.data@,
{
}

} // verus!
