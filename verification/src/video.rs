//! Video sources: from frames to chunks.

use crate::proto::media::{MediaInitView, VideoChunkView};
use crate::proto::{MediaInit, VideoChunk};
use vstd::prelude::*;

verus! {

/// One frame of video.
#[derive(Debug)]
pub struct VideoFrame {
    /// The frame as it comes from the source.
    pub data: Vec<u8>,
    /// Pixels.
    pub width: usize,
    /// Pixels.
    pub height: usize,
    /// Microseconds since the epoch.
    pub timestamp: u128,
}

impl Clone for VideoFrame {
    fn clone(&self) -> (r: Self)
        ensures
            r.data@ == self.data@,
            r.width == self.width,
            r.height == self.height,
            r.timestamp == self.timestamp,
    {
        let data = self.data.clone();
        assert(data@ =~= self.data@);
        VideoFrame { data, width: self.width, height: self.height, timestamp: self.timestamp }
    }
}

/// The low sixty-four bits of a time.
pub open spec fn low_u64(n: u128) -> u64 {
    (n % 0x1_0000_0000_0000_0000) as u64
}

/// The low thirty-two bits of a size.
pub open spec fn low_u32(n: usize) -> u32 {
    (n as u64 % 0x1_0000_0000) as u32
}

/// Whether the frame behind `count` others is a keyframe.
pub open spec fn is_keyframe(count: u64, interval: u32) -> bool {
    count % (interval as u64) == 0
}

/// The chunk for a frame.
pub open spec fn frame_chunk(f: VideoFrame, duration: u32, is_keyframe: bool) -> VideoChunkView {
    VideoChunkView {
        timestamp: low_u64(f.timestamp),
        duration,
        is_keyframe,
        dependency_sequence: None,
        data: f.data@,
    }
}

fn make_chunk(frame: VideoFrame, duration: u32, is_keyframe: bool) -> (c: VideoChunk)
    ensures
        c@ == frame_chunk(frame, duration, is_keyframe),
        frame.timestamp <= u64::MAX ==> c.timestamp == frame.timestamp,
        c.duration == duration,
        c.is_keyframe == is_keyframe,
        c.dependency_sequence is None,
        c.data@ == frame.data@,
{
    VideoChunk {
        timestamp: (frame.timestamp % 0x1_0000_0000_0000_0000) as u64,
        duration,
        is_keyframe,
        dependency_sequence: None,
        data: frame.data,
    }
}

/// The initialization data of a stream from a source of the given size.
pub open spec fn init_from(
    codec: Seq<char>,
    mime_type: Seq<char>,
    width: usize,
    height: usize,
    frame_rate: u32,
    bitrate: u32,
    init_segment: Seq<u8>,
) -> MediaInitView {
    MediaInitView {
        codec,
        mime_type,
        width: low_u32(width),
        height: low_u32(height),
        frame_rate,
        bitrate,
        init_segment,
    }
}

/// The initialization data of a stream from a source of the given size.
pub fn source_init(
    codec: String,
    mime_type: String,
    width: usize,
    height: usize,
    frame_rate: u32,
    bitrate: u32,
    init_segment: Vec<u8>,
) -> (init: MediaInit)
    ensures
        init@ == init_from(
            codec@,
            mime_type@,
            width,
            height,
            frame_rate,
            bitrate,
            init_segment@,
        ),
        width <= u32::MAX ==> init.width == width,
        height <= u32::MAX ==> init.height == height,
{
    MediaInit {
        codec,
        mime_type,
        width: (width as u64 % 0x1_0000_0000) as u32,
        height: (height as u64 % 0x1_0000_0000) as u32,
        frame_rate,
        bitrate,
        init_segment,
    }
}

/// Whether sending a frame behind `count` others gives the chunk and leaves `after` frames counted.
pub open spec fn is_sent_by_hand(
    count: u64,
    interval: u32,
    frame: VideoFrame,
    duration: u32,
    c: VideoChunkView,
    after: u64,
) -> bool {
    &&& c == frame_chunk(frame, duration, is_keyframe(count, interval))
    &&& after == count + 1
}

/// Counts the frames that an application sends by hand.
#[derive(Debug)]
pub struct FrameCounter {
    frame_count: u64,
    keyframe_interval: u32,
}

impl FrameCounter {
    /// How many frames have been handed in.
    pub closed spec fn count(&self) -> u64 {
        self.frame_count
    }

    /// How many frames lie between keyframes.
    pub closed spec fn interval(&self) -> u32 {
        self.keyframe_interval
    }

    /// No frame has been handed in.
    pub fn new(keyframe_interval: u32) -> (c: Self)
        ensures
            c.count() == 0,
            c.interval() == keyframe_interval,
    {
        FrameCounter { frame_count: 0, keyframe_interval }
    }

    /// Whether another frame can be counted.
    pub fn can_send(&self) -> (b: bool)
        ensures
            b == (self.count() < u64::MAX && self.interval() > 0),
    {
        self.frame_count < u64::MAX && self.keyframe_interval > 0
    }

    /// The chunk for the next frame. The first frame is a keyframe, and from there on the first
    /// of every `keyframe_interval` frames.
    pub fn send_frame(&mut self, frame: VideoFrame, duration: u32) -> (c: VideoChunk)
        requires
            old(self).count() < u64::MAX,
            old(self).interval() > 0,
        ensures
            final(self).count() == old(self).count() + 1,
            final(self).interval() == old(self).interval(),
            is_sent_by_hand(
                old(self).count(),
                old(self).interval(),
                frame,
                duration,
                c@,
                final(self).count(),
            ),
            c@ == frame_chunk(
                frame,
                duration,
                is_keyframe(old(self).count(), old(self).interval()),
            ),
            frame.timestamp <= u64::MAX ==> c.timestamp == frame.timestamp,
            c.duration == duration,
            c.is_keyframe == (old(self).count() % (old(self).interval() as u64) == 0),
            c.data@ == frame.data@,
    {
        let is_keyframe = self.frame_count % (self.keyframe_interval as u64) == 0;
        self.frame_count = self.frame_count + 1;
        make_chunk(frame, duration, is_keyframe)
    }

    /// Counts a frame that cannot be made into a chunk.
    pub fn skip_frame(&mut self)
        requires
            old(self).count() < u64::MAX,
        ensures
            final(self).count() == old(self).count() + 1,
            final(self).interval() == old(self).interval(),
    {
        self.frame_count = self.frame_count + 1;
    }
}

/// What happens to a running stream.
#[derive(Debug)]
pub enum VideoEvent {
    /// A frame is asked for.
    Requested,
    /// No frame will be asked for any more.
    RequestsClosed,
    /// The source has given a frame, to be shown for so many microseconds.
    Frame(VideoFrame, u32),
    /// The source has failed.
    SourceFailed,
    /// The chunk is on its way.
    Sent,
    /// The chunk could not be sent.
    SendFailed,
}

/// What is to be done because of an event.
#[derive(Debug)]
pub enum VideoAction {
    /// Get the next frame from the source.
    NextFrame,
    /// Send the chunk.
    Send(VideoChunk),
    /// Ask for a frame at once.
    RequestNow,
    /// Ask for a frame after a moment.
    RequestLater,
    /// End the stream.
    Stop,
}

/// Whether an event leaves a running stream that has sent `count` frames with `after` frames sent
/// and calls for the action.
pub open spec fn is_step(
    count: u64,
    interval: u32,
    event: VideoEvent,
    after: u64,
    action: VideoAction,
) -> bool {
    &&& after == if event is Sent {
        count + 1
    } else {
        count as int
    }
    &&& match event {
        VideoEvent::Requested => action is NextFrame,
        VideoEvent::RequestsClosed => action is Stop,
        VideoEvent::Frame(frame, duration) => action matches VideoAction::Send(c) && c@
            == frame_chunk(frame, duration, is_keyframe(count, interval)),
        VideoEvent::SourceFailed => action is RequestNow,
        VideoEvent::Sent => action is RequestLater,
        VideoEvent::SendFailed => action is Stop,
    }
}

/// A running stream: one frame is asked for, fetched, and sent at a time.
#[derive(Debug)]
pub struct VideoStream {
    frame_count: u64,
    keyframe_interval: u32,
}

impl VideoStream {
    /// How many frames have been sent.
    pub closed spec fn count(&self) -> u64 {
        self.frame_count
    }

    /// How many frames lie between keyframes.
    pub closed spec fn interval(&self) -> u32 {
        self.keyframe_interval
    }

    /// No frame has been sent.
    pub fn new(keyframe_interval: u32) -> (s: Self)
        ensures
            s.count() == 0,
            s.interval() == keyframe_interval,
    {
        VideoStream { frame_count: 0, keyframe_interval }
    }

    /// How many frames have been sent.
    pub fn frame_count(&self) -> (n: u64)
        ensures
            n == self.count(),
    {
        self.frame_count
    }

    /// Whether the event can be handled: a frame needs an interval to be measured against, and
    /// the count must not overflow.
    pub open spec fn can_handle(&self, event: VideoEvent) -> bool {
        &&& event is Frame ==> self.interval() > 0
        &&& event is Sent ==> self.count() < u64::MAX
    }

    /// Handles one event. A frame is a keyframe where the number of frames sent before it is a
    /// multiple of the interval. A failing source is asked again at once.
    pub fn handle(&mut self, event: VideoEvent) -> (action: VideoAction)
        requires
            old(self).can_handle(event),
        ensures
            final(self).interval() == old(self).interval(),
            is_step(old(self).count(), old(self).interval(), event, final(self).count(), action),
            final(self).count() == if event is Sent {
                old(self).count() + 1
            } else {
                old(self).count() as int
            },
            match event {
                VideoEvent::Requested => action is NextFrame,
                VideoEvent::RequestsClosed => action is Stop,
                VideoEvent::Frame(frame, duration) => {
                    &&& action matches VideoAction::Send(c)
                    &&& c@ == frame_chunk(
                        frame,
                        duration,
                        is_keyframe(old(self).count(), old(self).interval()),
                    )
                    &&& frame.timestamp <= u64::MAX ==> c.timestamp == frame.timestamp
                    &&& c.duration == duration
                    &&& c.is_keyframe == (old(self).count() % (old(self).interval() as u64) == 0)
                    &&& c.data@ == frame.data@
                },
                VideoEvent::SourceFailed => action is RequestNow,
                VideoEvent::Sent => action is RequestLater,
                VideoEvent::SendFailed => action is Stop,
            },
    {
        match event {
            VideoEvent::Requested => VideoAction::NextFrame,
            VideoEvent::RequestsClosed => VideoAction::Stop,
            VideoEvent::Frame(frame, duration) => {
                let is_keyframe = self.frame_count % (self.keyframe_interval as u64) == 0;
                VideoAction::Send(make_chunk(frame, duration, is_keyframe))
            },
            VideoEvent::SourceFailed => VideoAction::RequestNow,
            VideoEvent::Sent => {
                self.frame_count = self.frame_count + 1;
                VideoAction::RequestLater
            },
            VideoEvent::SendFailed => VideoAction::Stop,
        }
    }
}

/// Law: the chunk made for a frame carries the frame: its time as a number, for every time that
/// sixty-four bits can count, its bytes, the duration it is to be shown for, and whether it is a
/// keyframe. It depends on no other chunk. Where the time is too large, the multiple of 2^64 that
/// is lost is the only difference.
pub proof fn law_chunk_carries_the_frame(f: VideoFrame, duration: u32, key: bool)
    ensures
        f.timestamp <= 0xffff_ffff_ffff_ffff ==> frame_chunk(f, duration, key).timestamp
            == f.timestamp,
        exists|k: int|
            f.timestamp == frame_chunk(f, duration, key).timestamp + #[trigger] (k
                * 0x1_0000_0000_0000_0000),
        frame_chunk(f, duration, key).data == f.data@,
        frame_chunk(f, duration, key).duration == duration,
        frame_chunk(f, duration, key).is_keyframe == key,
        frame_chunk(f, duration, key).dependency_sequence is None,
{
    let k = f.timestamp as int / 0x1_0000_0000_0000_0000;
    assert(f.timestamp == frame_chunk(f, duration, key).timestamp + k * 0x1_0000_0000_0000_0000);
}

/// Law: frames that follow each other in time have chunks that do, by the same distance.
pub proof fn law_chunks_keep_the_distance(
    f: VideoFrame,
    g: VideoFrame,
    duration: u32,
    key: bool,
    other: bool,
)
    requires
        f.timestamp <= g.timestamp <= 0xffff_ffff_ffff_ffff,
    ensures
        frame_chunk(g, duration, other).timestamp - frame_chunk(f, duration, key).timestamp
            == g.timestamp - f.timestamp,
{
}

/// Law: a size that thirty-two bits can count is kept.
pub proof fn law_sizes_are_kept(n: usize)
    ensures
        n <= 0xffff_ffff ==> low_u32(n) == n,
{
}

/// Law: the first frame is a keyframe, none of the next is before as many frames as the interval
/// says, and from there on it is as from the start.
pub proof fn law_keyframes_by_interval(count: u64, interval: u32)
    requires
        interval > 0,
    ensures
        is_keyframe(0, interval),
        0 < count < interval ==> !is_keyframe(count, interval),
        count + interval <= u64::MAX ==> is_keyframe((count + interval) as u64, interval)
            == is_keyframe(count, interval),
{
    let i = interval as int;
    let n = count as int;
    assert(0int % i == 0) by (nonlinear_arith)
        requires
            i > 0,
    ;
    if 0 < n < i {
        vstd::arithmetic::div_mod::lemma_small_mod(count as nat, interval as nat);
    }
    vstd::arithmetic::div_mod::lemma_mod_add_multiples_vanish(n, i);
}

/// Law: with an interval of one, every frame is a keyframe.
pub proof fn law_interval_of_one(count: u64)
    ensures
        is_keyframe(count, 1),
{
}

/// Law: how a running stream goes on. A frame is fetched when it is asked for, sent as a chunk that
/// carries it, and counted once it is on its way; the next is then asked for after a moment. A
/// failing source is asked again at once. The stream ends where nothing more is asked for or a
/// chunk cannot be sent. A frame is a keyframe where as many were sent before it as the interval
/// says, or a multiple of that.
pub proof fn law_how_a_stream_runs(
    count: u64,
    interval: u32,
    event: VideoEvent,
    after: u64,
    action: VideoAction,
)
    requires
        is_step(count, interval, event, after, action),
        interval > 0,
    ensures
        event is Sent ==> after == count + 1 && action is RequestLater,
        !(event is Sent) ==> after == count,
        event is Requested ==> action is NextFrame,
        event is SourceFailed ==> action is RequestNow,
        event is RequestsClosed || event is SendFailed ==> action is Stop,
        event matches VideoEvent::Frame(frame, duration) ==> {
            &&& action matches VideoAction::Send(c)
            &&& frame.timestamp <= 0xffff_ffff_ffff_ffff ==> c.timestamp == frame.timestamp
            &&& c.data@ == frame.data@
            &&& c.duration == duration
            &&& c.dependency_sequence is None
            &&& c.is_keyframe == (count as int % interval as int == 0)
        },
{
}

/// Law: the initialization data of a stream says what it was made from.
pub proof fn law_init_says_what_it_is_from(
    codec: Seq<char>,
    mime_type: Seq<char>,
    width: usize,
    height: usize,
    frame_rate: u32,
    bitrate: u32,
    init_segment: Seq<u8>,
)
    ensures
        ({
            let i = init_from(codec, mime_type, width, height, frame_rate, bitrate, init_segment);
            &&& i.codec == codec
            &&& i.mime_type == mime_type
            &&& width <= 0xffff_ffff ==> i.width == width
            &&& height <= 0xffff_ffff ==> i.height == height
            &&& i.frame_rate == frame_rate
            &&& i.bitrate == bitrate
            &&& i.init_segment == init_segment
        }),
{
}

/// Law: frames sent by hand, one behind the other, are counted one by one, and each goes out with
/// its time, its bytes and its duration, as a keyframe where the count before it is a multiple of
/// the interval.
pub proof fn law_frames_sent_by_hand(
    count: u64,
    interval: u32,
    f: VideoFrame,
    g: VideoFrame,
    duration: u32,
    c: VideoChunkView,
    d: VideoChunkView,
    between: u64,
    after: u64,
)
    requires
        interval > 0,
        is_sent_by_hand(count, interval, f, duration, c, between),
        is_sent_by_hand(between, interval, g, duration, d, after),
    ensures
        after == count + 2,
        f.timestamp <= 0xffff_ffff_ffff_ffff ==> c.timestamp == f.timestamp,
        g.timestamp <= 0xffff_ffff_ffff_ffff ==> d.timestamp == g.timestamp,
        c.data == f.data@ && d.data == g.data@,
        c.duration == duration && d.duration == duration,
        c.is_keyframe == (count as int % interval as int == 0),
        d.is_keyframe == ((count + 1) % interval as int == 0),
        c.dependency_sequence is None && d.dependency_sequence is None,
{
}

} // verus!
