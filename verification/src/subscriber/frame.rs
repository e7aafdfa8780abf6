//! Reading frames from a data stream.

use crate::buffer::{advance, buffer_bytes, buffer_len, contents, split_to};
use crate::engine::frame::{frame, frame_body};
use crate::proto::{views, MoqObject, ObjectView};
use crate::text::{lossy_text, string_from_utf8_lossy};
use crate::wire::{
    be_bytes, be_value, group_reading, law_number_comes_back, lemma_capacities, read_be,
};
use bytes::BytesMut;
use vstd::prelude::*;
use vstd::slice::{slice_subrange, slice_to_vec};
use vstd::utf8::encode_utf8;

verus! {

broadcast use group_reading;

/// Why a frame could not be read.
#[derive(Debug, Clone, Copy, PartialEq, Eq, Structural)]
pub enum ReadError {
    /// The length prefix is not there yet.
    NoLength,
    /// The frame is not there yet.
    Incomplete,
    /// The name reaches beyond the frame.
    NameTooLong,
    /// The frame ends before the length of the payload.
    Truncated,
    /// The payload reaches beyond the frame.
    DataTooLong,
}

impl ReadError {
    /// The error in words.
    pub open spec fn text(self) -> Seq<char> {
        match self {
            ReadError::NoLength => "Buffer too small for length header"@,
            ReadError::Incomplete => "Incomplete object data"@,
            ReadError::NameTooLong => "Name length exceeds buffer size"@,
            ReadError::Truncated => "failed to fill whole buffer"@,
            ReadError::DataTooLong => "Data length exceeds buffer size"@,
        }
    }

    /// The error in words.
    pub fn message(&self) -> (s: String)
        ensures
            s@ == self.text(),
    {
        let text = match self {
            ReadError::NoLength => "Buffer too small for length header",
            ReadError::Incomplete => "Incomplete object data",
            ReadError::NameTooLong => "Name length exceeds buffer size",
            ReadError::Truncated => "failed to fill whole buffer",
            ReadError::DataTooLong => "Data length exceeds buffer size",
        };
        text.to_string()
    }
}

/// What a frame without its length prefix holds. It has at least two bytes.
pub open spec fn parse_body(f: Seq<u8>) -> Result<ObjectView, ReadError> {
    let n = be_value(f.subrange(0, 2)) as int;
    let d = be_value(f.subrange(23 + n, 27 + n)) as int;
    if f.len() < 2 + n {
        Err(ReadError::NameTooLong)
    } else if f.len() < 27 + n {
        Err(ReadError::Truncated)
    } else if f.len() < 27 + n + d {
        Err(ReadError::DataTooLong)
    } else {
        Ok(
            ObjectView {
                name: lossy_text(f.subrange(2, 2 + n)),
                sequence: be_value(f.subrange(2 + n, 10 + n)) as u64,
                timestamp: be_value(f.subrange(10 + n, 18 + n)) as u64,
                group_id: be_value(f.subrange(18 + n, 22 + n)) as u32,
                priority: f[22 + n],
                data: f.subrange(27 + n, 27 + n + d),
            },
        )
    }
}

/// How many bytes the frame at the head of `b` says that it has behind its length prefix.
pub open spec fn declared(b: Seq<u8>) -> int {
    be_value(b.take(4)) as int
}

/// Whether the frame at the head of `b` is there as a whole.
pub open spec fn is_whole(b: Seq<u8>) -> bool {
    b.len() >= 4 && b.len() >= 4 + declared(b)
}

/// Whether the frame at the head of `b`, if it is there as a whole, has room for the length of
/// its name.
pub open spec fn is_readable(b: Seq<u8>) -> bool {
    is_whole(b) ==> declared(b) >= 2
}

/// What the frame at the head of `b` holds, and how many bytes reading it uses up: none before
/// it is there as a whole, all of it after.
pub open spec fn parse_frame(b: Seq<u8>) -> (Result<ObjectView, ReadError>, int) {
    if b.len() < 4 {
        (Err(ReadError::NoLength), 0)
    } else if !is_whole(b) {
        (Err(ReadError::Incomplete), 0)
    } else {
        (parse_body(b.subrange(4, 4 + declared(b))), 4 + declared(b))
    }
}

/// Whether an outcome is the one that was read.
pub open spec fn is_outcome(
    r: Result<MoqObject, ReadError>,
    parsed: Result<ObjectView, ReadError>,
) -> bool {
    match (r, parsed) {
        (Ok(object), Ok(o)) => object@ == o,
        (Err(e), Err(f)) => e == f,
        _ => false,
    }
}

/// Reads the frame at the head of the buffer.
pub fn deserialize_object(buffer: &mut BytesMut) -> (r: Result<MoqObject, ReadError>)
    requires
        is_readable(contents(*old(buffer))),
    ensures
        is_outcome(r, parse_frame(contents(*old(buffer))).0),
        contents(*final(buffer)) == contents(*old(buffer)).skip(
            parse_frame(contents(*old(buffer))).1,
        ),
{
    let ghost b = contents(*buffer);
    assert(b.skip(0) =~= b);
    if buffer_len(buffer) < 4 {
        return Err(ReadError::NoLength);
    }
    assert(b.subrange(0, 4) =~= b.take(4));
    let total_length = read_be(buffer_bytes(buffer), 0, 4);
    if ((buffer_len(buffer) - 4) as u64) < total_length {
        return Err(ReadError::Incomplete);
    }
    advance(buffer, 4);
    let object_data = split_to(buffer, total_length as usize);
    read_body(buffer_bytes(&object_data))
}

/// Reads a frame without its length prefix.
fn read_body(f: &[u8]) -> (r: Result<MoqObject, ReadError>)
    requires
        f@.len() >= 2,
    ensures
        is_outcome(r, parse_body(f@)),
{
    proof {
        lemma_capacities();
    }
    let len = f.len();
    let n = read_be(f, 0, 2) as usize;
    if n > len - 2 {
        return Err(ReadError::NameTooLong);
    }
    let name = string_from_utf8_lossy(slice_subrange(f, 2, 2 + n));
    if len - 2 - n < 25 {
        return Err(ReadError::Truncated);
    }
    let sequence = read_be(f, 2 + n, 10 + n);
    let timestamp = read_be(f, 10 + n, 18 + n);
    let group_id = read_be(f, 18 + n, 22 + n) as u32;
    let priority = f[22 + n];
    let data_len = read_be(f, 23 + n, 27 + n);
    let pos = 27 + n;
    if data_len > (len - pos) as u64 {
        return Err(ReadError::DataTooLong);
    }
    let data = slice_to_vec(slice_subrange(f, pos, pos + data_len as usize));
    Ok(MoqObject { name, sequence, timestamp, group_id, priority, data })
}

/// What draining a buffer comes to.
#[verifier::ext_equal]
pub struct DrainView {
    /// The objects that came out, in order.
    pub objects: Seq<ObjectView>,
    /// The bytes that are left.
    pub rest: Seq<u8>,
    /// Whether draining stopped for want of bytes or at a bad frame, rather than before a
    /// frame that cannot be read at all.
    pub readable: bool,
}

/// Takes frame after frame from the head of `b` up to the first that is not there as a whole
/// or is bad. A bad frame is used up.
pub open spec fn drain(b: Seq<u8>) -> DrainView
    decreases b.len(),
{
    if !is_readable(b) {
        DrainView { objects: Seq::empty(), rest: b, readable: false }
    } else {
        match parse_frame(b) {
            (Ok(o), used) => {
                let d = drain(b.skip(used));
                DrainView { objects: seq![o] + d.objects, rest: d.rest, readable: d.readable }
            },
            (Err(_), used) => DrainView {
                objects: Seq::empty(),
                rest: b.skip(used),
                readable: true,
            },
        }
    }
}

/// What was drained from a buffer.
#[derive(Debug)]
pub struct Drained {
    /// The objects, in order.
    pub objects: Vec<MoqObject>,
    /// Whether the frame that comes next, if it is there, can be read at all.
    pub readable: bool,
}

/// Whether `deserialize_object` can be called.
pub fn frame_is_readable(buffer: &BytesMut) -> (r: bool)
    ensures
        r == is_readable(contents(*buffer)),
{
    let ghost b = contents(*buffer);
    let len = buffer_len(buffer);
    if len < 4 {
        return true;
    }
    assert(b.subrange(0, 4) =~= b.take(4));
    let total_length = read_be(buffer_bytes(buffer), 0, 4);
    ((len - 4) as u64) < total_length || total_length >= 2
}

/// Takes every object out of the buffer that can be had before more bytes arrive.
pub fn drain_objects(buffer: &mut BytesMut) -> (d: Drained)
    ensures
        views(d.objects@) == drain(contents(*old(buffer))).objects,
        contents(*final(buffer)) == drain(contents(*old(buffer))).rest,
        d.readable == drain(contents(*old(buffer))).readable,
{
    let mut objects: Vec<MoqObject> = Vec::new();
    let ghost goal = drain(contents(*buffer));
    assert(views(objects@) + goal.objects =~= goal.objects);
    loop
        invariant
            goal == drain(contents(*old(buffer))),
            goal.objects == views(objects@) + drain(contents(*buffer)).objects,
            goal.rest == drain(contents(*buffer)).rest,
            goal.readable == drain(contents(*buffer)).readable,
        decreases contents(*buffer).len(),
    {
        if !frame_is_readable(buffer) {
            assert(views(objects@) + Seq::<ObjectView>::empty() =~= views(objects@));
            return Drained { objects, readable: false };
        }
        let ghost before = objects@;
        let ghost b = contents(*buffer);
        match deserialize_object(buffer) {
            Ok(object) => {
                objects.push(object);
                proof {
                    let d = drain(contents(*buffer));
                    assert(views(objects@) =~= views(before).push(object@));
                    assert(views(before) + (seq![object@] + d.objects) =~= views(objects@)
                        + d.objects);
                }
            },
            Err(_) => {
                assert(views(objects@) + Seq::<ObjectView>::empty() =~= views(objects@));
                return Drained { objects, readable: true };
            },
        }
    }
}

/// Whether an object can be framed.
pub open spec fn fits(o: ObjectView) -> bool {
    encode_utf8(o.name).len() <= u16::MAX && frame_body(o).len() <= u32::MAX
}

/// Law: a framed object is read back as it was, whatever follows the frame, and nothing of
/// what follows is used up.
pub proof fn law_frame_round_trip(o: ObjectView, rest: Seq<u8>)
    requires
        fits(o),
    ensures
        is_readable(frame(o) + rest),
        parse_frame(frame(o) + rest) == (
            Ok::<ObjectView, ReadError>(o),
            frame(o).len() as int,
        ),
{
    broadcast use vstd::utf8::encode_utf8_valid_utf8, vstd::utf8::encode_utf8_decode_utf8;

    lemma_capacities();
    let b = frame(o) + rest;
    let f = frame_body(o);
    law_number_comes_back(f.len(), 4);
    assert(b.take(4) =~= be_bytes(f.len(), 4));
    assert(b.subrange(4, 4 + f.len() as int) =~= f);
    let name = encode_utf8(o.name);
    let n = name.len() as int;
    law_number_comes_back(name.len(), 2);
    law_number_comes_back(o.sequence as nat, 8);
    law_number_comes_back(o.timestamp as nat, 8);
    law_number_comes_back(o.group_id as nat, 4);
    law_number_comes_back(o.data.len(), 4);
    assert(f.subrange(0, 2) =~= be_bytes(name.len(), 2));
    assert(f.subrange(2, 2 + n) =~= name);
    assert(f.subrange(2 + n, 10 + n) =~= be_bytes(o.sequence as nat, 8));
    assert(f.subrange(10 + n, 18 + n) =~= be_bytes(o.timestamp as nat, 8));
    assert(f.subrange(18 + n, 22 + n) =~= be_bytes(o.group_id as nat, 4));
    assert(f.subrange(23 + n, 27 + n) =~= be_bytes(o.data.len(), 4));
    assert(f.subrange(27 + n, 27 + n + o.data.len()) =~= o.data);
}

/// The bytes of some objects, one frame after the other.
pub open spec fn frames(objects: Seq<ObjectView>) -> Seq<u8>
    decreases objects.len(),
{
    if objects.len() == 0 {
        Seq::empty()
    } else {
        frame(objects[0]) + frames(objects.skip(1))
    }
}

/// All bytes of some chunks.
pub open spec fn concat(chunks: Seq<Seq<u8>>) -> Seq<u8>
    decreases chunks.len(),
{
    if chunks.len() == 0 {
        Seq::empty()
    } else {
        chunks[0] + concat(chunks.skip(1))
    }
}

/// The objects that come out where chunk after chunk arrives behind the bytes held, and the
/// buffer is drained after each.
pub open spec fn deliver(held: Seq<u8>, chunks: Seq<Seq<u8>>) -> Seq<ObjectView>
    decreases chunks.len(),
{
    if chunks.len() == 0 {
        Seq::empty()
    } else {
        let d = drain(held + chunks[0]);
        d.objects + deliver(d.rest, chunks.skip(1))
    }
}

/// A frame that is there only in part is waited for.
proof fn lemma_part_of_frame(o: ObjectView, k: int)
    requires
        fits(o),
        0 <= k < frame(o).len(),
    ensures
        is_readable(frame(o).take(k)),
        parse_frame(frame(o).take(k)).0 is Err,
        parse_frame(frame(o).take(k)).1 == 0,
{
    let b = frame(o).take(k);
    lemma_capacities();
    law_number_comes_back(frame_body(o).len(), 4);
    if k >= 4 {
        assert(b.take(4) =~= be_bytes(frame_body(o).len(), 4));
    }
}

/// Draining the first bytes of some frames takes out the whole frames among them, and keeps
/// what there is of the next.
proof fn lemma_drain_of_frames(objects: Seq<ObjectView>, s: Seq<u8>, more: Seq<u8>) -> (m: int)
    requires
        forall|i: int| 0 <= i < objects.len() ==> fits(#[trigger] objects[i]),
        s + more == frames(objects),
    ensures
        0 <= m <= objects.len(),
        drain(s).objects == objects.take(m),
        drain(s).readable,
        drain(s).rest + more == frames(objects.skip(m)),
        if m < objects.len() {
            drain(s).rest.len() < frame(objects[m]).len()
        } else {
            drain(s).rest.len() == 0
        },
    decreases objects.len(),
{
    if objects.len() == 0 {
        assert(s.len() + more.len() == 0);
        assert(s.skip(0) =~= s);
        assert(objects.take(0) =~= drain(s).objects);
        assert(objects.skip(0) =~= objects);
        0
    } else {
        let o = objects[0];
        let f = frame(o);
        let others = objects.skip(1);
        assert forall|i: int| 0 <= i < others.len() implies fits(#[trigger] others[i]) by {
            assert(others[i] == objects[i + 1]);
        }
        if s.len() >= f.len() {
            let s1 = s.skip(f.len() as int);
            assert(s =~= f + s1) by {
                assert forall|i: int| 0 <= i < f.len() implies s[i] == f[i] by {
                    assert((s + more)[i] == s[i]);
                    assert(frames(objects)[i] == f[i]);
                }
            }
            assert(s1 + more =~= frames(others)) by {
                assert((s + more).skip(f.len() as int) =~= s1 + more);
                assert(frames(objects).skip(f.len() as int) =~= frames(others));
            }
            law_frame_round_trip(o, s1);
            let m1 = lemma_drain_of_frames(others, s1, more);
            assert(drain(s).objects =~= objects.take(m1 + 1)) by {
                assert(drain(s).objects =~= seq![o] + others.take(m1));
            }
            assert(others.skip(m1) =~= objects.skip(m1 + 1));
            m1 + 1
        } else {
            assert(s =~= f.take(s.len() as int)) by {
                assert forall|i: int| 0 <= i < s.len() implies s[i] == f[i] by {
                    assert((s + more)[i] == s[i]);
                    assert(frames(objects)[i] == f[i]);
                }
            }
            lemma_part_of_frame(o, s.len() as int);
            assert(s.skip(0) =~= s);
            assert(objects.take(0) =~= Seq::<ObjectView>::empty());
            assert(objects.skip(0) =~= objects);
            0
        }
    }
}

proof fn lemma_deliver(objects: Seq<ObjectView>, held: Seq<u8>, chunks: Seq<Seq<u8>>)
    requires
        forall|i: int| 0 <= i < objects.len() ==> fits(#[trigger] objects[i]),
        held + concat(chunks) == frames(objects),
        objects.len() > 0 ==> held.len() < frame(objects[0]).len(),
    ensures
        deliver(held, chunks) == objects,
    decreases chunks.len(),
{
    if chunks.len() == 0 {
        assert(held + concat(chunks) =~= held);
        assert(objects =~= Seq::<ObjectView>::empty());
    } else {
        let s = held + chunks[0];
        let more = concat(chunks.skip(1));
        assert(s + more =~= held + concat(chunks));
        let m = lemma_drain_of_frames(objects, s, more);
        let others = objects.skip(m);
        assert forall|i: int| 0 <= i < others.len() implies fits(#[trigger] others[i]) by {
            assert(others[i] == objects[i + m]);
        }
        lemma_deliver(others, drain(s).rest, chunks.skip(1));
        assert(objects.take(m) + others =~= objects);
    }
}

/// Law: a subscriber gets exactly the objects that were framed, in order, however the network
/// cuts their bytes into chunks.
pub proof fn law_any_chunking_delivers(objects: Seq<ObjectView>, chunks: Seq<Seq<u8>>)
    requires
        forall|i: int| 0 <= i < objects.len() ==> fits(#[trigger] objects[i]),
        concat(chunks) == frames(objects),
    ensures
        deliver(Seq::empty(), chunks) == objects,
{
    assert(Seq::<u8>::empty() + concat(chunks) =~= concat(chunks));
    lemma_deliver(objects, Seq::empty(), chunks);
}

/// Law: an object can be framed where its name has at most 65535 bytes and the whole behind the
/// length prefix at most 4294967295.
pub proof fn law_what_fits(o: ObjectView)
    ensures
        fits(o) <==> encode_utf8(o.name).len() <= 65_535 && 27 + encode_utf8(o.name).len()
            + o.data.len() <= 4_294_967_295,
{
}

/// Law: how a frame is read, field by field. Nothing is used up before the frame is all there;
/// then all of it is, whatever it holds. Every field has its place behind the length prefix, and
/// each error comes where a length reaches beyond the frame.
pub proof fn law_frame_is_read_by_place(b: Seq<u8>)
    ensures
        b.len() < 4 ==> parse_frame(b) == (Err::<ObjectView, ReadError>(ReadError::NoLength), 0int),
        b.len() >= 4 ==> {
            let d = be_value(b.subrange(0, 4)) as int;
            let n = be_value(b.subrange(4, 6)) as int;
            let x = be_value(b.subrange(27 + n, 31 + n)) as int;
            let (r, used) = parse_frame(b);
            &&& b.len() < 4 + d ==> r == Err::<ObjectView, ReadError>(ReadError::Incomplete)
                && used == 0
            &&& b.len() >= 4 + d && d >= 2 ==> {
                &&& used == 4 + d
                &&& d < 2 + n ==> r == Err::<ObjectView, ReadError>(ReadError::NameTooLong)
                &&& 2 + n <= d < 27 + n ==> r == Err::<ObjectView, ReadError>(ReadError::Truncated)
                &&& 27 + n <= d < 27 + n + x ==> r == Err::<ObjectView, ReadError>(
                    ReadError::DataTooLong,
                )
                &&& 27 + n + x <= d ==> {
                    &&& r matches Ok(o)
                    &&& o.name == lossy_text(b.subrange(6, 6 + n))
                    &&& o.sequence == be_value(b.subrange(6 + n, 14 + n)) as u64
                    &&& o.timestamp == be_value(b.subrange(14 + n, 22 + n)) as u64
                    &&& o.group_id == be_value(b.subrange(22 + n, 26 + n)) as u32
                    &&& o.priority == b[26 + n]
                    &&& o.data == b.subrange(31 + n, 31 + n + x)
                }
            }
        },
{
    if b.len() >= 4 {
        assert(b.take(4) =~= b.subrange(0, 4));
        let d = be_value(b.subrange(0, 4)) as int;
        if b.len() >= 4 + d && d >= 2 {
            let f = b.subrange(4, 4 + d);
            assert(f.subrange(0, 2) =~= b.subrange(4, 6));
            let n = be_value(b.subrange(4, 6)) as int;
            if 27 + n <= d {
                assert(f.subrange(23 + n, 27 + n) =~= b.subrange(27 + n, 31 + n));
                let x = be_value(b.subrange(27 + n, 31 + n)) as int;
                if 27 + n + x <= d {
                    assert(f.subrange(2, 2 + n) =~= b.subrange(6, 6 + n));
                    assert(f.subrange(2 + n, 10 + n) =~= b.subrange(6 + n, 14 + n));
                    assert(f.subrange(10 + n, 18 + n) =~= b.subrange(14 + n, 22 + n));
                    assert(f.subrange(18 + n, 22 + n) =~= b.subrange(22 + n, 26 + n));
                    assert(f.subrange(27 + n, 27 + n + x) =~= b.subrange(31 + n, 31 + n + x));
                }
            }
        }
    }
}

/// Law: only a frame that is all there and too short for the length of its name cannot be read.
pub proof fn law_what_is_readable(b: Seq<u8>)
    ensures
        is_readable(b) <==> !(b.len() >= 4 && be_value(b.subrange(0, 4)) < 2 && b.len() >= 4
            + be_value(b.subrange(0, 4))),
{
    if b.len() >= 4 {
        assert(b.take(4) =~= b.subrange(0, 4));
    }
}

/// Law: draining hands out a good frame and goes on behind it, and stops at any other, which is
/// used up if it is all there.
pub proof fn law_drain_frame_by_frame(b: Seq<u8>)
    ensures
        !is_readable(b) ==> drain(b).objects.len() == 0 && drain(b).rest == b && !drain(b).readable,
        is_readable(b) && parse_frame(b).0 is Ok ==> {
            let rest = b.skip(parse_frame(b).1);
            &&& drain(b).objects.len() == drain(rest).objects.len() + 1
            &&& drain(b).objects[0] == parse_frame(b).0->Ok_0
            &&& drain(b).objects.skip(1) == drain(rest).objects
            &&& drain(b).rest == drain(rest).rest
            &&& drain(b).readable == drain(rest).readable
        },
        is_readable(b) && parse_frame(b).0 is Err ==> drain(b).objects.len() == 0 && drain(b).rest
            == b.skip(parse_frame(b).1) && drain(b).readable,
{
    if is_readable(b) && parse_frame(b).0 is Ok {
        let rest = b.skip(parse_frame(b).1);
        assert(drain(b).objects.skip(1) =~= drain(rest).objects);
    }
}

/// Law: what a reader returns is what was read.
pub proof fn law_returned_as_read(
    r: Result<MoqObject, ReadError>,
    parsed: Result<ObjectView, ReadError>,
)
    requires
        is_outcome(r, parsed),
    ensures
        r matches Ok(object) ==> parsed == Ok::<ObjectView, ReadError>(object@),
        r matches Err(e) ==> parsed == Err::<ObjectView, ReadError>(e),
{
}

/// Law: the words of each error.
pub proof fn law_words_of_each_error()
    ensures
        ReadError::NoLength.text() == "Buffer too small for length header"@,
        ReadError::Incomplete.text() == "Incomplete object data"@,
        ReadError::NameTooLong.text() == "Name length exceeds buffer size"@,
        ReadError::Truncated.text() == "failed to fill whole buffer"@,
        ReadError::DataTooLong.text() == "Data length exceeds buffer size"@,
{
}

} // verus!
