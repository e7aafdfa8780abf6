//! Frames: how a published object travels on a data stream.

use crate::buffer::has_room;
use crate::proto::{MoqObject, ObjectView};
use crate::text::{decimal, push_decimal, push_text};
use crate::wire::{
    be_bytes, be_value, group_reading, law_number_comes_back, lemma_capacities, push_be,
};
use vstd::prelude::*;
use vstd::utf8::encode_utf8;

verus! {

broadcast use group_reading;

/// The bytes of an object behind the length prefix.
pub open spec fn frame_body(o: ObjectView) -> Seq<u8> {
    let name = encode_utf8(o.name);
    be_bytes(name.len(), 2) + name + be_bytes(o.sequence as nat, 8) + be_bytes(
        o.timestamp as nat,
        8,
    ) + be_bytes(o.group_id as nat, 4) + seq![o.priority] + be_bytes(o.data.len(), 4) + o.data
}

/// The bytes of an object on a data stream: a length of four bytes and the rest.
pub open spec fn frame(o: ObjectView) -> Seq<u8> {
    be_bytes(frame_body(o).len(), 4) + frame_body(o)
}

/// Why an object cannot be framed.
#[derive(Debug, Clone, Copy, PartialEq, Eq, Structural)]
pub enum FrameError {
    /// The name has more bytes than sixteen bits can count. Holds their number.
    NameTooLong(usize),
    /// The payload has more bytes than thirty-two bits can count. Holds their number.
    DataTooLarge(usize),
    /// The whole has more bytes than thirty-two bits can count. Holds their number.
    TooLarge(usize),
}

impl FrameError {
    /// The error in words.
    pub open spec fn text(self) -> Seq<char> {
        match self {
            FrameError::NameTooLong(n) => "Object name too long: "@ + decimal(n as nat)
                + " bytes (max 65535)"@,
            FrameError::DataTooLarge(n) => "Object data too large: "@ + decimal(n as nat)
                + " bytes (max 4294967295)"@,
            FrameError::TooLarge(n) => "Total serialized object size exceeds limit: "@ + decimal(
                n as nat,
            ) + " bytes"@,
        }
    }

    /// The error in words.
    pub fn message(&self) -> (s: String)
        ensures
            s@ == self.text(),
    {
        match self {
            FrameError::NameTooLong(n) => {
                let mut s = "Object name too long: ".to_string();
                push_decimal(&mut s, *n as u64);
                push_text(&mut s, " bytes (max 65535)");
                s
            },
            FrameError::DataTooLarge(n) => {
                let mut s = "Object data too large: ".to_string();
                push_decimal(&mut s, *n as u64);
                push_text(&mut s, " bytes (max 4294967295)");
                s
            },
            FrameError::TooLarge(n) => {
                let mut s = "Total serialized object size exceeds limit: ".to_string();
                push_decimal(&mut s, *n as u64);
                push_text(&mut s, " bytes");
                s
            },
        }
    }
}

/// The frame of an object, or the first reason why it has none: the name, then the payload, then
/// the whole.
pub open spec fn framed(o: ObjectView) -> Result<Seq<u8>, FrameError> {
    let name = encode_utf8(o.name);
    if name.len() > u16::MAX {
        Err(FrameError::NameTooLong(name.len() as usize))
    } else if o.data.len() > u32::MAX {
        Err(FrameError::DataTooLarge(o.data.len() as usize))
    } else if frame_body(o).len() > u32::MAX {
        Err(FrameError::TooLarge(frame_body(o).len() as usize))
    } else {
        Ok(frame(o))
    }
}

/// Frames an object for a data stream.
pub fn serialize_object(object: &MoqObject) -> (r: Result<Vec<u8>, FrameError>)
    requires
        has_room(encode_utf8(object.name@).len() + object.data@.len(), 31),
    ensures
        match (r, framed(object@)) {
            (Ok(bytes), Ok(b)) => bytes@ == b,
            (Err(e), Err(f)) => e == f,
            _ => false,
        },
        r is Ok <==> encode_utf8(object.name@).len() <= 65_535 && 27 + encode_utf8(
            object.name@,
        ).len() + object.data@.len() <= 4_294_967_295,
{
    let mut buffer: Vec<u8> = Vec::new();
    let name_bytes = object.name.as_str().as_bytes();
    let name_len = name_bytes.len();
    if name_len > u16::MAX as usize {
        return Err(FrameError::NameTooLong(name_len));
    }
    push_be(&mut buffer, name_len as u64, 2);
    buffer.extend_from_slice(name_bytes);
    push_be(&mut buffer, object.sequence, 8);
    push_be(&mut buffer, object.timestamp, 8);
    push_be(&mut buffer, object.group_id as u64, 4);
    buffer.push(object.priority);
    let data_len = object.data.len();
    if data_len as u64 > u32::MAX as u64 {
        return Err(FrameError::DataTooLarge(data_len));
    }
    push_be(&mut buffer, data_len as u64, 4);
    buffer.extend_from_slice(object.data.as_slice());
    assert(buffer@ =~= frame_body(object@));

    let total_inner_len = buffer.len();
    if total_inner_len as u64 > u32::MAX as u64 {
        return Err(FrameError::TooLarge(total_inner_len));
    }
    let mut final_data: Vec<u8> = Vec::new();
    push_be(&mut final_data, total_inner_len as u64, 4);
    final_data.extend_from_slice(buffer.as_slice());
    assert(final_data@ =~= frame(object@));
    Ok(final_data)
}

/// Law: an object is framed whenever it fits the format, and is turned down only where the format
/// cannot count one of its lengths: the name first, then the payload, then the whole.
pub proof fn law_framed_where_it_fits(o: ObjectView)
    ensures
        ({
            let name = encode_utf8(o.name).len();
            let body = 27 + name + o.data.len();
            &&& framed(o) is Ok <==> name <= 65_535 && body <= 4_294_967_295
            &&& framed(o) matches Ok(b) ==> b == frame(o) && b.len() == 4 + body
            &&& name > 65_535 ==> framed(o) == Err::<Seq<u8>, FrameError>(
                FrameError::NameTooLong(name as usize),
            )
            &&& name <= 65_535 && o.data.len() > 4_294_967_295 ==> framed(o) == Err::<
                Seq<u8>,
                FrameError,
            >(FrameError::DataTooLarge(o.data.len() as usize))
            &&& name <= 65_535 && o.data.len() <= 4_294_967_295 && body > 4_294_967_295 ==> framed(o)
                == Err::<Seq<u8>, FrameError>(FrameError::TooLarge(body as usize))
        }),
{
}

/// Law: where the fields of an object stand in its frame, most significant byte first: the length
/// of all that follows, the length of the name, the name, the sequence number, the time, the
/// group, the priority, the length of the payload, the payload.
pub proof fn law_frame_layout(o: ObjectView)
    requires
        encode_utf8(o.name).len() <= 65_535,
        27 + encode_utf8(o.name).len() + o.data.len() <= 4_294_967_295,
    ensures
        ({
            let f = frame(o);
            let n = encode_utf8(o.name).len() as int;
            &&& f.len() == 31 + n + o.data.len()
            &&& be_value(f.subrange(0, 4)) == 27 + n + o.data.len()
            &&& be_value(f.subrange(4, 6)) == n
            &&& f.subrange(6, 6 + n) == encode_utf8(o.name)
            &&& be_value(f.subrange(6 + n, 14 + n)) == o.sequence
            &&& be_value(f.subrange(14 + n, 22 + n)) == o.timestamp
            &&& be_value(f.subrange(22 + n, 26 + n)) == o.group_id
            &&& f[26 + n] == o.priority
            &&& be_value(f.subrange(27 + n, 31 + n)) == o.data.len()
            &&& f.skip(31 + n) == o.data
        }),
{
    lemma_capacities();
    let f = frame(o);
    let name = encode_utf8(o.name);
    let n = name.len() as int;
    law_number_comes_back(frame_body(o).len(), 4);
    law_number_comes_back(name.len(), 2);
    law_number_comes_back(o.sequence as nat, 8);
    law_number_comes_back(o.timestamp as nat, 8);
    law_number_comes_back(o.group_id as nat, 4);
    law_number_comes_back(o.data.len(), 4);
    assert(f.subrange(0, 4) =~= be_bytes(frame_body(o).len(), 4));
    assert(f.subrange(4, 6) =~= be_bytes(name.len(), 2));
    assert(f.subrange(6, 6 + n) =~= name);
    assert(f.subrange(6 + n, 14 + n) =~= be_bytes(o.sequence as nat, 8));
    assert(f.subrange(14 + n, 22 + n) =~= be_bytes(o.timestamp as nat, 8));
    assert(f.subrange(22 + n, 26 + n) =~= be_bytes(o.group_id as nat, 4));
    assert(f.subrange(27 + n, 31 + n) =~= be_bytes(o.data.len(), 4));
    assert(f.skip(31 + n) =~= o.data);
}

/// Law: the words of each error, which say how many bytes there were.
pub proof fn law_words_of_each_error(n: usize)
    ensures
        FrameError::NameTooLong(n).text() == "Object name too long: "@ + decimal(n as nat)
            + " bytes (max 65535)"@,
        FrameError::DataTooLarge(n).text() == "Object data too large: "@ + decimal(n as nat)
            + " bytes (max 4294967295)"@,
        FrameError::TooLarge(n).text() == "Total serialized object size exceeds limit: "@ + decimal(
            n as nat,
        ) + " bytes"@,
{
}

} // verus!
