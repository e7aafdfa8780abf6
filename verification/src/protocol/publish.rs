//! What a node publishes: initialization segments, chunks, and the announcement of a stream.

use crate::buffer::has_room;
use crate::engine::frame::frame;
use crate::ids::{NodeId, StreamId};
use crate::proto::announce::AnnouncementView;
use crate::proto::media::{
    audio_payload, law_audio_round_trip, parse_audio, AudioChunkView, AudioInitView, MediaInitView,
    VideoChunkView,
};
use crate::proto::{
    AudioChunk, AudioInit, MediaInit, MoqObject, ObjectView, StreamAnnouncement, VideoChunk,
    ProtoError, MEDIA_TYPE_AUDIO, MEDIA_TYPE_INIT, MEDIA_TYPE_VIDEO,
};
use crate::subscriber::actor::{
    chunk_of, is_action, law_delivered_as_received, SubscriberAction, SubscriberCommand,
    SubscriberStateView,
};
use crate::subscriber::frame::{
    fits, law_frame_round_trip, law_what_fits, parse_frame, ReadError,
};
use crate::text::{decimal, law_decimal_tells_apart, push_decimal, push_text};
use vstd::prelude::*;
use vstd::utf8::encode_utf8;

verus! {

/// The object that opens a stream: number 0, the highest priority, and the group that every
/// subscriber gets first.
pub open spec fn init_object(name: Seq<char>, timestamp: u64, segment: Seq<u8>) -> ObjectView {
    ObjectView {
        name,
        sequence: 0,
        timestamp,
        group_id: MEDIA_TYPE_INIT as u32,
        priority: 255,
        data: segment,
    }
}

fn make_init_object(
    namespace: &str,
    suffix: &str,
    timestamp: u64,
    segment: &Vec<u8>,
) -> (o: MoqObject)
    ensures
        o@ == init_object(namespace@ + suffix@, timestamp, segment@),
{
    let mut name = namespace.to_string();
    push_text(&mut name, suffix);
    let data = segment.clone();
    assert(data@ =~= segment@);
    MoqObject {
        name,
        sequence: 0,
        timestamp,
        group_id: MEDIA_TYPE_INIT as u32,
        priority: 255,
        data,
    }
}

/// The object that opens a video stream at time `timestamp`.
pub fn video_init_object(namespace: &str, timestamp: u64, init: &MediaInit) -> (o: MoqObject)
    ensures
        o@ == init_object(namespace@ + "/init"@, timestamp, init.init_segment@),
{
    make_init_object(namespace, "/init", timestamp, &init.init_segment)
}

/// The object that opens an audio stream at time `timestamp`.
pub fn audio_init_object(namespace: &str, timestamp: u64, init: &AudioInit) -> (o: MoqObject)
    ensures
        o@ == init_object(namespace@ + "/audio_init"@, timestamp, init.init_segment@),
{
    make_init_object(namespace, "/audio_init", timestamp, &init.init_segment)
}

/// The announcement of a video stream with the given initialization data.
pub open spec fn announced(
    stream_id: Seq<u8>,
    sender_id: Seq<u8>,
    namespace: Seq<char>,
    init: MediaInitView,
    timestamp: u64,
) -> AnnouncementView {
    AnnouncementView {
        stream_id,
        sender_id,
        namespace,
        codec: init.codec,
        resolution: (init.width, init.height),
        framerate: init.frame_rate,
        bitrate: init.bitrate,
        timestamp,
        relay_ids: Seq::empty(),
    }
}

/// The announcement of a video stream.
pub fn video_announcement(
    stream_id: StreamId,
    sender_id: NodeId,
    namespace: String,
    init: &MediaInit,
    timestamp: u64,
) -> (a: StreamAnnouncement)
    ensures
        a@ == announced(stream_id@, sender_id@, namespace@, init@, timestamp),
{
    let a = StreamAnnouncement {
        stream_id,
        sender_id,
        namespace,
        codec: init.codec.clone(),
        resolution: (init.width, init.height),
        framerate: init.frame_rate,
        bitrate: init.bitrate,
        timestamp,
        relay_ids: Vec::new(),
    };
    assert(a@.relay_ids =~= Seq::empty());
    a
}

/// The announcement of an audio stream with the given initialization data.
pub open spec fn audio_announced(
    stream_id: Seq<u8>,
    sender_id: Seq<u8>,
    namespace: Seq<char>,
    init: AudioInitView,
    timestamp: u64,
) -> AnnouncementView {
    AnnouncementView {
        stream_id,
        sender_id,
        namespace,
        codec: init.codec,
        resolution: (0, 0),
        framerate: 0,
        bitrate: init.bitrate,
        timestamp,
        relay_ids: Seq::empty(),
    }
}

/// The announcement of an audio stream, which has no resolution and no frame rate.
pub fn audio_announcement(
    stream_id: StreamId,
    sender_id: NodeId,
    namespace: String,
    init: &AudioInit,
    timestamp: u64,
) -> (a: StreamAnnouncement)
    ensures
        a@ == audio_announced(stream_id@, sender_id@, namespace@, init@, timestamp),
{
    let a = StreamAnnouncement {
        stream_id,
        sender_id,
        namespace,
        codec: init.codec.clone(),
        resolution: (0, 0),
        framerate: 0,
        bitrate: init.bitrate,
        timestamp,
        relay_ids: Vec::new(),
    };
    assert(a@.relay_ids =~= Seq::empty());
    a
}

/// The object that carries a chunk of a video stream.
pub open spec fn chunk_object(namespace: Seq<char>, sequence: u64, c: VideoChunkView) -> ObjectView {
    ObjectView {
        name: namespace + "/chunk_"@ + decimal(sequence as nat),
        sequence,
        timestamp: c.timestamp,
        group_id: MEDIA_TYPE_VIDEO as u32,
        priority: if c.is_keyframe {
            255
        } else {
            128
        },
        data: c.data,
    }
}

/// Whether publishing a chunk under the number `next` gives the object and leaves `after` as the
/// next number.
pub open spec fn is_published(
    namespace: Seq<char>,
    next: u64,
    c: VideoChunkView,
    o: ObjectView,
    after: u64,
) -> bool {
    o == chunk_object(namespace, next, c) && after == next + 1
}

/// Numbers the chunks of a video stream.
#[derive(Debug)]
pub struct ChunkPublisher {
    namespace: String,
    sequence: u64,
}

impl ChunkPublisher {
    /// The namespace of the stream.
    pub closed spec fn namespace(&self) -> Seq<char> {
        self.namespace@
    }

    /// The number of the next chunk.
    pub closed spec fn next_sequence(&self) -> u64 {
        self.sequence
    }

    /// The first chunk is number 1, behind the initialization segment.
    pub fn new(namespace: String) -> (p: Self)
        ensures
            p.namespace() == namespace@,
            p.next_sequence() == 1,
    {
        ChunkPublisher { namespace, sequence: 1 }
    }

    /// Whether there is a number left for another chunk.
    pub fn has_next(&self) -> (b: bool)
        ensures
            b == (self.next_sequence() < u64::MAX),
    {
        self.sequence < u64::MAX
    }

    /// The object for the next chunk.
    pub fn publish(&mut self, chunk: VideoChunk) -> (o: MoqObject)
        requires
            old(self).next_sequence() < u64::MAX,
        ensures
            is_published(
                old(self).namespace(),
                old(self).next_sequence(),
                chunk@,
                o@,
                final(self).next_sequence(),
            ),
            o@ == chunk_object(old(self).namespace(), old(self).next_sequence(), chunk@),
            final(self).namespace() == old(self).namespace(),
            final(self).next_sequence() == old(self).next_sequence() + 1,
    {
        let sequence = self.sequence;
        let mut name = self.namespace.clone();
        push_text(&mut name, "/chunk_");
        push_decimal(&mut name, sequence);
        self.sequence = sequence + 1;
        MoqObject {
            name,
            sequence,
            timestamp: chunk.timestamp,
            group_id: MEDIA_TYPE_VIDEO as u32,
            priority: if chunk.is_keyframe {
                255
            } else {
                128
            },
            data: chunk.data,
        }
    }
}

/// The object that carries a chunk of an audio stream.
pub open spec fn audio_object(namespace: Seq<char>, sequence: u64, c: AudioChunkView) -> ObjectView {
    ObjectView {
        name: namespace + "/chunk_"@ + decimal(sequence as nat),
        sequence,
        timestamp: c.timestamp,
        group_id: MEDIA_TYPE_AUDIO as u32,
        priority: 128,
        data: audio_payload(c),
    }
}

/// Whether publishing a chunk of audio under the number `next` gives the object and leaves `after`
/// as the next number.
pub open spec fn is_audio_published(
    namespace: Seq<char>,
    next: u64,
    c: AudioChunkView,
    o: ObjectView,
    after: u64,
) -> bool {
    o == audio_object(namespace, next, c) && after == next + 1
}

/// Numbers the chunks of an audio stream.
#[derive(Debug)]
pub struct AudioPublisher {
    namespace: String,
    sequence: u64,
}

impl AudioPublisher {
    /// The namespace of the stream.
    pub closed spec fn namespace(&self) -> Seq<char> {
        self.namespace@
    }

    /// The number of the next chunk.
    pub closed spec fn next_sequence(&self) -> u64 {
        self.sequence
    }

    /// The first chunk is number 1, behind the initialization segment.
    pub fn new(namespace: String) -> (p: Self)
        ensures
            p.namespace() == namespace@,
            p.next_sequence() == 1,
    {
        AudioPublisher { namespace, sequence: 1 }
    }

    /// Whether there is a number left for another chunk.
    pub fn has_next(&self) -> (b: bool)
        ensures
            b == (self.next_sequence() < u64::MAX),
    {
        self.sequence < u64::MAX
    }

    /// The object for the next chunk.
    pub fn publish(&mut self, chunk: AudioChunk) -> (o: MoqObject)
        requires
            old(self).next_sequence() < u64::MAX,
            has_room(chunk.data@.len(), 13),
        ensures
            is_audio_published(
                old(self).namespace(),
                old(self).next_sequence(),
                chunk@,
                o@,
                final(self).next_sequence(),
            ),
            o@ == audio_object(old(self).namespace(), old(self).next_sequence(), chunk@),
            final(self).namespace() == old(self).namespace(),
            final(self).next_sequence() == old(self).next_sequence() + 1,
    {
        let sequence = self.sequence;
        let mut name = self.namespace.clone();
        push_text(&mut name, "/chunk_");
        push_decimal(&mut name, sequence);
        self.sequence = sequence + 1;
        MoqObject::from_audio_chunk(name, sequence, chunk, MEDIA_TYPE_AUDIO as u32)
    }
}

/// Law: a chunk reaches the subscriber's application with its timestamp, its payload, and
/// whether it is a keyframe. What the application gets is what was published, but for the
/// duration and the dependency, which do not travel.
pub proof fn law_chunk_reaches_application(
    namespace: Seq<char>,
    sequence: u64,
    c: VideoChunkView,
    rest: Seq<u8>,
)
    requires
        fits(chunk_object(namespace, sequence, c)),
    ensures
        ({
            let o = chunk_object(namespace, sequence, c);
            &&& parse_frame(frame(o) + rest) == (
                Ok::<ObjectView, ReadError>(o),
                frame(o).len() as int,
            )
            &&& chunk_of(o) == (VideoChunkView { duration: 0, dependency_sequence: None, ..c })
        }),
{
    law_frame_round_trip(chunk_object(namespace, sequence, c), rest);
}

/// Law: the initialization data that the application gets is that which was published. The object
/// that opens a stream, framed and read back behind whatever else is on the data stream, and
/// processed in a confirmed subscription to the stream as it was announced, is delivered with the
/// published segment byte for byte, and with the published codec, size, frame rate and bitrate.
pub proof fn law_init_reaches_application(
    stream_id: Seq<u8>,
    sender_id: Seq<u8>,
    namespace: Seq<char>,
    init: MediaInitView,
    announced_at: u64,
    opened_at: u64,
    rest: Seq<u8>,
    received: MoqObject,
    action: SubscriberAction,
)
    requires
        encode_utf8(namespace + "/init"@).len() <= 65_535,
        27 + encode_utf8(namespace + "/init"@).len() + init.init_segment.len() <= 4_294_967_295,
        parse_frame(
            frame(init_object(namespace + "/init"@, opened_at, init.init_segment)) + rest,
        ).0 == Ok::<ObjectView, ReadError>(received@),
        is_action(
            SubscriberStateView::Subscribed,
            announced(stream_id, sender_id, namespace, init, announced_at),
            SubscriberCommand::ProcessObject(received),
            action,
        ),
    ensures
        action matches SubscriberAction::DeliverInit(got) && {
            &&& got.init_segment@ == init.init_segment
            &&& got.codec@ == init.codec
            &&& got.width == init.width
            &&& got.height == init.height
            &&& got.frame_rate == init.frame_rate
            &&& got.bitrate == init.bitrate
        },
{
    let o = init_object(namespace + "/init"@, opened_at, init.init_segment);
    law_what_fits(o);
    law_frame_round_trip(o, rest);
    law_delivered_as_received(
        announced(stream_id, sender_id, namespace, init, announced_at),
        received@,
        action,
    );
}

/// Law: a chunk that is published reaches the application in a confirmed subscription: with its
/// time, its bytes, and whether it is a keyframe.
pub proof fn law_chunk_is_delivered(
    a: AnnouncementView,
    namespace: Seq<char>,
    sequence: u64,
    c: VideoChunkView,
    rest: Seq<u8>,
    received: MoqObject,
    action: SubscriberAction,
)
    requires
        encode_utf8(namespace + "/chunk_"@ + decimal(sequence as nat)).len() <= 65_535,
        27 + encode_utf8(namespace + "/chunk_"@ + decimal(sequence as nat)).len() + c.data.len()
            <= 4_294_967_295,
        parse_frame(frame(chunk_object(namespace, sequence, c)) + rest).0 == Ok::<
            ObjectView,
            ReadError,
        >(received@),
        is_action(
            SubscriberStateView::Subscribed,
            a,
            SubscriberCommand::ProcessObject(received),
            action,
        ),
    ensures
        action matches SubscriberAction::DeliverChunk(got) && {
            &&& got.timestamp == c.timestamp
            &&& got.data@ == c.data
            &&& got.is_keyframe == c.is_keyframe
        },
{
    law_what_fits(chunk_object(namespace, sequence, c));
    law_frame_round_trip(chunk_object(namespace, sequence, c), rest);
    law_delivered_as_received(a, received@, action);
}

/// Law: the object that opens a stream has number 0, group 0 and the highest priority, and holds
/// the segment as it is.
pub proof fn law_what_opens_a_stream(name: Seq<char>, timestamp: u64, segment: Seq<u8>)
    ensures
        ({
            let o = init_object(name, timestamp, segment);
            &&& o.name == name
            &&& o.sequence == 0
            &&& o.timestamp == timestamp
            &&& o.group_id == 0
            &&& o.priority == 255
            &&& o.data == segment
        }),
{
}

/// Law: the object that carries a chunk of video holds its bytes and its time as they are, is of
/// group 1, has the number given and that number in its name, and has priority 255 where the chunk
/// is a keyframe and 128 where it is not.
pub proof fn law_chunk_as_object(namespace: Seq<char>, sequence: u64, c: VideoChunkView)
    ensures
        ({
            let o = chunk_object(namespace, sequence, c);
            &&& o.name == namespace + "/chunk_"@ + decimal(sequence as nat)
            &&& o.sequence == sequence
            &&& o.timestamp == c.timestamp
            &&& o.group_id == 1
            &&& c.is_keyframe ==> o.priority == 255
            &&& !c.is_keyframe ==> o.priority == 128
            &&& o.data == c.data
        }),
{
}

/// Law: the object that carries a chunk of audio is of group 2, has the number given and that
/// number in its name, and the chunk can be read out of it as it was.
pub proof fn law_audio_chunk_as_object(namespace: Seq<char>, sequence: u64, c: AudioChunkView)
    ensures
        ({
            let o = audio_object(namespace, sequence, c);
            &&& o.name == namespace + "/chunk_"@ + decimal(sequence as nat)
            &&& o.sequence == sequence
            &&& o.timestamp == c.timestamp
            &&& o.group_id == 2
            &&& o.priority == 128
            &&& parse_audio(o) == Ok::<AudioChunkView, ProtoError>(c)
        }),
{
    law_audio_round_trip(c, audio_object(namespace, sequence, c));
}

/// Law: no two chunks of a stream have the same name.
pub proof fn law_names_tell_chunks_apart(
    namespace: Seq<char>,
    m: u64,
    n: u64,
    c: VideoChunkView,
    d: VideoChunkView,
)
    requires
        chunk_object(namespace, m, c).name == chunk_object(namespace, n, d).name,
    ensures
        m == n,
{
    let head = namespace + "/chunk_"@;
    let a = decimal(m as nat);
    let b = decimal(n as nat);
    assert((head + a).skip(head.len() as int) =~= a);
    assert((head + b).skip(head.len() as int) =~= b);
    law_decimal_tells_apart(m as nat, n as nat);
}

/// Law: an announcement says of a stream what its initialization data says.
pub proof fn law_announced_as_it_is(
    stream_id: Seq<u8>,
    sender_id: Seq<u8>,
    namespace: Seq<char>,
    init: MediaInitView,
    timestamp: u64,
)
    ensures
        ({
            let a = announced(stream_id, sender_id, namespace, init, timestamp);
            &&& a.stream_id == stream_id
            &&& a.sender_id == sender_id
            &&& a.namespace == namespace
            &&& a.codec == init.codec
            &&& a.resolution.0 == init.width
            &&& a.resolution.1 == init.height
            &&& a.framerate == init.frame_rate
            &&& a.bitrate == init.bitrate
            &&& a.timestamp == timestamp
            &&& a.relay_ids.len() == 0
        }),
{
}

/// Law: an announcement of audio says of the stream what its initialization data says, and neither
/// a size nor a frame rate.
pub proof fn law_audio_announced_as_it_is(
    stream_id: Seq<u8>,
    sender_id: Seq<u8>,
    namespace: Seq<char>,
    init: AudioInitView,
    timestamp: u64,
)
    ensures
        ({
            let a = audio_announced(stream_id, sender_id, namespace, init, timestamp);
            &&& a.stream_id == stream_id
            &&& a.sender_id == sender_id
            &&& a.namespace == namespace
            &&& a.codec == init.codec
            &&& a.resolution.0 == 0
            &&& a.resolution.1 == 0
            &&& a.framerate == 0
            &&& a.bitrate == init.bitrate
            &&& a.timestamp == timestamp
            &&& a.relay_ids.len() == 0
        }),
{
}

/// Law: chunks published one behind the other are numbered without a gap, have names of their own,
/// and hold what they were made of.
pub proof fn law_chunks_in_a_row(
    namespace: Seq<char>,
    next: u64,
    c: VideoChunkView,
    d: VideoChunkView,
    o: ObjectView,
    p: ObjectView,
    between: u64,
    after: u64,
)
    requires
        is_published(namespace, next, c, o, between),
        is_published(namespace, between, d, p, after),
    ensures
        o.sequence == next,
        p.sequence == o.sequence + 1,
        after == p.sequence + 1,
        o.name != p.name,
        o.data == c.data && p.data == d.data,
        o.timestamp == c.timestamp && p.timestamp == d.timestamp,
        o.group_id == 1 && p.group_id == 1,
        (o.priority >= 200) == c.is_keyframe && (p.priority >= 200) == d.is_keyframe,
{
    if o.name == p.name {
        law_names_tell_chunks_apart(namespace, next, between, c, d);
    }
}

/// Law: the same of chunks of audio, which can be read out of their objects as they were.
pub proof fn law_audio_chunks_in_a_row(
    namespace: Seq<char>,
    next: u64,
    c: AudioChunkView,
    d: AudioChunkView,
    o: ObjectView,
    p: ObjectView,
    between: u64,
    after: u64,
)
    requires
        is_audio_published(namespace, next, c, o, between),
        is_audio_published(namespace, between, d, p, after),
    ensures
        o.sequence == next,
        p.sequence == o.sequence + 1,
        after == p.sequence + 1,
        parse_audio(o) == Ok::<AudioChunkView, ProtoError>(c),
        parse_audio(p) == Ok::<AudioChunkView, ProtoError>(d),
        o.timestamp == c.timestamp && p.timestamp == d.timestamp,
        o.group_id == 2 && p.group_id == 2,
{
    law_audio_round_trip(c, o);
    law_audio_round_trip(d, p);
}

} // verus!
