//! Announcements: how the streams of a node become known.

use crate::ids::{NodeId, StreamId};
use vstd::prelude::*;

verus! {

/// What a node tells the others of a stream that it publishes.
#[derive(Debug)]
pub struct StreamAnnouncement {
    pub stream_id: StreamId,
    /// The node that publishes the stream.
    pub sender_id: NodeId,
    /// For example `/live/video`.
    pub namespace: String,
    /// For example `h264`.
    pub codec: String,
    /// Width and height.
    pub resolution: (u32, u32),
    /// Frames per second.
    pub framerate: u32,
    /// Bits per second.
    pub bitrate: u32,
    /// When the stream started, in microseconds since the epoch.
    pub timestamp: u64,
    /// Relays that pass the stream on.
    pub relay_ids: Vec<String>,
}

/// What an announcement holds, as mathematical values.
#[verifier::ext_equal]
pub struct AnnouncementView {
    pub stream_id: Seq<u8>,
    pub sender_id: Seq<u8>,
    pub namespace: Seq<char>,
    pub codec: Seq<char>,
    pub resolution: (u32, u32),
    pub framerate: u32,
    pub bitrate: u32,
    pub timestamp: u64,
    pub relay_ids: Seq<Seq<char>>,
}

impl View for StreamAnnouncement {
    type V = AnnouncementView;

    open spec fn view(&self) -> AnnouncementView {
        AnnouncementView {
            stream_id: self.stream_id@,
            sender_id: self.sender_id@,
            namespace: self.namespace@,
            codec: self.codec@,
            resolution: self.resolution,
            framerate: self.framerate,
            bitrate: self.bitrate,
            timestamp: self.timestamp,
            relay_ids: self.relay_ids@.map_values(|s: String| s@),
        }
    }
}

impl Clone for StreamAnnouncement {
    fn clone(&self) -> (r: Self)
        ensures
            r@ == self@,
    {
        let relay_ids = self.relay_ids.clone();
        assert(relay_ids@.map_values(|s: String| s@) =~= self.relay_ids@.map_values(
            |s: String| s@,
        ));
        StreamAnnouncement {
            stream_id: self.stream_id,
            sender_id: self.sender_id,
            namespace: self.namespace.clone(),
            codec: self.codec.clone(),
            resolution: self.resolution,
            framerate: self.framerate,
            bitrate: self.bitrate,
            timestamp: self.timestamp,
            relay_ids,
        }
    }
}

impl StreamAnnouncement {
    /// Whether the announcement is that of the stream, as a node that looks for one stream
    /// asks.
    pub fn announces(&self, stream_id: &StreamId) -> (b: bool)
        ensures
            b == (self@.stream_id == stream_id@),
    {
        self.stream_id.same(stream_id)
    }

    /// Whether the announcement is from the node, as a node that watches one sender asks.
    pub fn is_from(&self, sender_id: &NodeId) -> (b: bool)
        ensures
            b == (self@.sender_id == sender_id@),
    {
        self.sender_id.same(sender_id)
    }
}

/// Microseconds for which a node waits for the announcement of a stream.
pub const ANNOUNCEMENT_WAIT: u128 = 5_000_000;

/// What a node that looks for one stream does next.
#[derive(Debug, Clone, Copy, PartialEq, Eq, Structural)]
pub enum SearchStep {
    /// What was heard last is the announcement.
    Found,
    /// Listen for one more message.
    Listen,
    /// The time is over.
    GiveUp,
}

/// Whether a step is the right one for a node that looks for a stream.
pub open spec fn is_search_step(
    stream_id: Seq<u8>,
    heard: Option<AnnouncementView>,
    elapsed: u128,
    step: SearchStep,
) -> bool {
    if heard matches Some(a) && a.stream_id == stream_id {
        step is Found
    } else if elapsed < ANNOUNCEMENT_WAIT {
        step is Listen
    } else {
        step is GiveUp
    }
}

/// What a node that looks for a stream does next, with the announcement that it heard last, if
/// any, and the microseconds that have passed since it began. An announcement that comes late is
/// taken all the same.
pub fn search_step(
    stream_id: &StreamId,
    heard: Option<&StreamAnnouncement>,
    elapsed: u128,
) -> (step: SearchStep)
    ensures
        is_search_step(
            stream_id@,
            match heard {
                Some(a) => Some(a@),
                None => None,
            },
            elapsed,
            step,
        ),
        step is Found <==> (heard matches Some(a) && a@.stream_id == stream_id@),
        step is Listen <==> !(step is Found) && elapsed < ANNOUNCEMENT_WAIT,
        step is GiveUp <==> !(step is Found) && elapsed >= ANNOUNCEMENT_WAIT,
{
    if let Some(announcement) = heard {
        if announcement.announces(stream_id) {
            return SearchStep::Found;
        }
    }
    if elapsed < ANNOUNCEMENT_WAIT {
        SearchStep::Listen
    } else {
        SearchStep::GiveUp
    }
}

/// A node that passes a stream on.
#[derive(Debug)]
pub struct MoqRelay {
    pub relay_id: String,
    pub stream_id: StreamId,
    pub namespace: String,
}

impl Clone for MoqRelay {
    fn clone(&self) -> (r: Self)
        ensures
            r == *self,
    {
        MoqRelay {
            relay_id: self.relay_id.clone(),
            stream_id: self.stream_id,
            namespace: self.namespace.clone(),
        }
    }
}

/// The BLAKE3 digest of some bytes.
pub uninterp spec fn blake3_digest(bytes: Seq<u8>) -> Seq<u8>;

/// `blake3::hash`: the digest of the bytes, which depends on them alone.
#[verifier::external_body]
fn blake3_hash(bytes: &[u8]) -> (digest: [u8; 32])
    ensures
        digest@ == blake3_digest(bytes@),
{
    *blake3::hash(bytes).as_bytes()
}

/// The identifier of a gossip topic: the digest of its name.
pub fn topic_hash(topic: &[u8]) -> (digest: [u8; 32])
    ensures
        digest@ == blake3_digest(topic@),
{
    blake3_hash(topic)
}

/// Law: an announcement is shown with all that it says.
pub proof fn law_announcement_is_shown(a: StreamAnnouncement, i: int)
    ensures
        a@.stream_id == a.stream_id.bytes@,
        a@.sender_id == a.sender_id.bytes@,
        a@.namespace == a.namespace@,
        a@.codec == a.codec@,
        a@.resolution == a.resolution,
        a@.framerate == a.framerate,
        a@.bitrate == a.bitrate,
        a@.timestamp == a.timestamp,
        a@.relay_ids.len() == a.relay_ids@.len(),
        0 <= i < a.relay_ids@.len() ==> a@.relay_ids[i] == a.relay_ids@[i]@,
{
}

/// Law: a search ends with the announcement of the stream whenever that is heard, goes on for five
/// seconds otherwise, and is then given up.
pub proof fn law_how_long_a_search_goes_on(
    stream_id: Seq<u8>,
    heard: Option<AnnouncementView>,
    elapsed: u128,
    step: SearchStep,
)
    requires
        is_search_step(stream_id, heard, elapsed, step),
    ensures
        step is Found <==> heard is Some && heard->0.stream_id == stream_id,
        !(step is Found) && elapsed < 5_000_000 ==> step is Listen,
        !(step is Found) && elapsed >= 5_000_000 ==> step is GiveUp,
{
}

} // verus!
