//! Objects with self-describing metadata: a length prefix, a fixed header, fields of the form
//! type, length, value, and the payload.

use super::{
    MoqObject, ObjectView, ProtoError, MEDIA_TYPE_AUDIO, MEDIA_TYPE_INIT, MEDIA_TYPE_VIDEO,
    TYPE_OBJECT,
};
use crate::buffer::{
    advance, buffer_bytes, buffer_len, contents, get_u32, get_u64, get_u8, has_room, new_buffer,
    peek_bytes, put_bytes, put_u32, put_u64, put_u8,
};
use crate::text::{string_from_utf8, utf8_fault};
use crate::wire::{
    be_bytes, be_value, group_reading, lemma_be_bytes_truncate, law_number_comes_back,
    lemma_capacities, read_be,
};
use bytes::BytesMut;
use vstd::prelude::*;
use vstd::slice::{slice_subrange, slice_to_vec};
use vstd::utf8::{decode_utf8, encode_utf8, valid_utf8};

verus! {

broadcast use group_reading;

/// The byte that tells a reader what an object is before its metadata is read.
pub open spec fn type_flags(o: ObjectView) -> u8 {
    if o.group_id == MEDIA_TYPE_INIT {
        0x01
    } else if o.group_id == MEDIA_TYPE_VIDEO {
        if o.priority == 255 {
            0x02
        } else {
            0x03
        }
    } else if o.group_id == MEDIA_TYPE_AUDIO {
        0x04
    } else {
        0x00
    }
}

/// The type byte, the flags and the timestamp of an object.
pub open spec fn object_header(o: ObjectView) -> Seq<u8> {
    seq![TYPE_OBJECT, type_flags(o)] + be_bytes(o.timestamp as nat, 8)
}

/// The metadata of an object: sequence number, group, priority, name, and the end marker. Of
/// the length of the name only the low eight bits are written.
pub open spec fn object_metadata(o: ObjectView) -> Seq<u8> {
    let name = encode_utf8(o.name);
    (seq![1u8, 8u8] + be_bytes(o.sequence as nat, 8)) + (seq![2u8, 4u8] + be_bytes(
        o.group_id as nat,
        4,
    )) + seq![3u8, 1u8, o.priority] + (seq![4u8] + be_bytes(name.len(), 1) + name) + seq![0u8]
}

/// The payload of an object behind its length, of which only the low thirty-two bits are
/// written.
pub open spec fn object_payload(o: ObjectView) -> Seq<u8> {
    be_bytes(o.data.len(), 4) + o.data
}

/// The bytes of an object without the length prefix.
pub open spec fn object_body(o: ObjectView) -> Seq<u8> {
    object_header(o) + object_metadata(o) + object_payload(o)
}

/// The bytes of an object.
pub open spec fn object_message(o: ObjectView) -> Seq<u8> {
    be_bytes(object_body(o).len(), 4) + object_body(o)
}

/// What the metadata of an object says.
#[verifier::ext_equal]
pub struct FieldsView {
    pub sequence: u64,
    pub group_id: u32,
    pub priority: u8,
    pub name: Seq<char>,
}

/// How reading metadata ends.
pub enum MetadataOutcome {
    /// At the end marker, with the place behind it.
    Done(FieldsView, int),
    /// With an error, and the place that was reached.
    Refused(ProtoError, int),
    /// In the middle of a number.
    Unreadable,
}

/// What follows from reading metadata in `b` from place `at` on, where `f` is known so far. A
/// later field overrides an earlier one. The numbers have their fixed width, whatever length
/// they declare. Fields of unknown type are passed over.
pub open spec fn parse_metadata(b: Seq<u8>, at: int, f: FieldsView) -> MetadataOutcome
    decreases b.len() - at,
{
    if at < 0 || at >= b.len() {
        MetadataOutcome::Refused(ProtoError::EndInMetadata, at)
    } else if b[at] == 0 {
        MetadataOutcome::Done(f, at + 1)
    } else if at + 1 >= b.len() {
        MetadataOutcome::Refused(ProtoError::NoTlvLength, at + 1)
    } else {
        let n = b[at + 1] as int;
        let left = b.len() - (at + 2);
        if left < n {
            MetadataOutcome::Refused(ProtoError::ShortTlvValue, at + 2)
        } else if b[at] == 1 {
            if left < 8 {
                MetadataOutcome::Unreadable
            } else {
                parse_metadata(
                    b,
                    at + 10,
                    FieldsView { sequence: be_value(b.subrange(at + 2, at + 10)) as u64, ..f },
                )
            }
        } else if b[at] == 2 {
            if left < 4 {
                MetadataOutcome::Unreadable
            } else {
                parse_metadata(
                    b,
                    at + 6,
                    FieldsView { group_id: be_value(b.subrange(at + 2, at + 6)) as u32, ..f },
                )
            }
        } else if b[at] == 3 {
            if left < 1 {
                MetadataOutcome::Unreadable
            } else {
                parse_metadata(b, at + 3, FieldsView { priority: b[at + 2], ..f })
            }
        } else if b[at] == 4 {
            if !valid_utf8(b.subrange(at + 2, at + 2 + n)) {
                MetadataOutcome::Refused(
                    ProtoError::InvalidUtf8(utf8_fault(b.subrange(at + 2, at + 2 + n))),
                    at + 2,
                )
            } else {
                parse_metadata(
                    b,
                    at + 2 + n,
                    FieldsView { name: decode_utf8(b.subrange(at + 2, at + 2 + n)), ..f },
                )
            }
        } else {
            parse_metadata(b, at + 2 + n, f)
        }
    }
}

/// What is known of an object from its flags alone.
pub open spec fn default_fields(flags: u8) -> FieldsView {
    FieldsView {
        sequence: 0,
        group_id: if flags == 0x02 || flags == 0x03 {
            MEDIA_TYPE_VIDEO as u32
        } else if flags == 0x04 {
            MEDIA_TYPE_AUDIO as u32
        } else {
            MEDIA_TYPE_INIT as u32
        },
        priority: if flags == 0x02 {
            255
        } else {
            128
        },
        name: Seq::empty(),
    }
}

/// How reading an object ends.
pub enum ObjectOutcome {
    /// With an object, and the number of bytes used up.
    Read(ObjectView, int),
    /// With an error, and the number of bytes used up.
    Refused(ProtoError, int),
    /// In the middle of a number, or before the type byte.
    Unreadable,
}

/// What an object at the head of `b` is.
pub open spec fn parse_object(b: Seq<u8>) -> ObjectOutcome {
    if b.len() < 4 {
        ObjectOutcome::Refused(ProtoError::NoMessageLength, 0)
    } else if b.len() - 4 < be_value(b.take(4)) {
        ObjectOutcome::Refused(ProtoError::IncompleteMessage, 4)
    } else if b.len() == 4 {
        ObjectOutcome::Unreadable
    } else if b[4] != TYPE_OBJECT {
        ObjectOutcome::Refused(ProtoError::InvalidMessageType(b[4]), 5)
    } else if b.len() < 14 {
        ObjectOutcome::Refused(ProtoError::NoBasicHeader, 5)
    } else {
        match parse_metadata(b, 14, default_fields(b[5])) {
            MetadataOutcome::Unreadable => ObjectOutcome::Unreadable,
            MetadataOutcome::Refused(e, at) => ObjectOutcome::Refused(e, at),
            MetadataOutcome::Done(f, at) => parse_payload(
                b,
                at,
                f,
                be_value(b.subrange(6, 14)) as u64,
            ),
        }
    }
}

/// What an object is whose metadata ends before place `at`.
pub open spec fn parse_payload(b: Seq<u8>, at: int, f: FieldsView, timestamp: u64) -> ObjectOutcome {
    let n = be_value(b.subrange(at, at + 4));
    if b.len() - at < 4 {
        ObjectOutcome::Refused(ProtoError::NoPayloadLength, at)
    } else if b.len() - (at + 4) < n {
        ObjectOutcome::Refused(ProtoError::ShortPayload, at + 4)
    } else {
        ObjectOutcome::Read(
            ObjectView {
                name: f.name,
                sequence: f.sequence,
                timestamp,
                group_id: f.group_id,
                priority: f.priority,
                data: b.subrange(at + 4, at + 4 + n),
            },
            at + 4 + n,
        )
    }
}

/// Appends the type byte, the flags and the timestamp of an object.
fn put_header(buffer: &mut BytesMut, object: &MoqObject)
    requires
        has_room(contents(*old(buffer)).len(), 10),
    ensures
        contents(*final(buffer)) == contents(*old(buffer)) + object_header(object@),
{
    put_u8(buffer, TYPE_OBJECT);
    let flags: u8 = if object.group_id == MEDIA_TYPE_INIT as u32 {
        0x01
    } else if object.group_id == MEDIA_TYPE_VIDEO as u32 {
        if object.priority == 255 {
            0x02
        } else {
            0x03
        }
    } else if object.group_id == MEDIA_TYPE_AUDIO as u32 {
        0x04
    } else {
        0x00
    };
    put_u8(buffer, flags);
    put_u64(buffer, object.timestamp);
    assert(contents(*buffer) =~= contents(*old(buffer)) + object_header(object@));
}

/// Appends the metadata of an object.
fn put_metadata(buffer: &mut BytesMut, object: &MoqObject)
    requires
        has_room(contents(*old(buffer)).len(), 22 + encode_utf8(object.name@).len()),
    ensures
        contents(*final(buffer)) == contents(*old(buffer)) + object_metadata(object@),
{
    let ghost held = contents(*buffer);
    put_u8(buffer, 0x01);
    put_u8(buffer, 8);
    put_u64(buffer, object.sequence);
    let ghost part1 = seq![1u8, 8u8] + be_bytes(object.sequence as nat, 8);
    assert(contents(*buffer) =~= held + part1);

    put_u8(buffer, 0x02);
    put_u8(buffer, 4);
    put_u32(buffer, object.group_id);
    let ghost part2 = seq![2u8, 4u8] + be_bytes(object.group_id as nat, 4);
    assert(contents(*buffer) =~= held + part1 + part2);

    put_u8(buffer, 0x03);
    put_u8(buffer, 1);
    put_u8(buffer, object.priority);
    let ghost part3 = seq![3u8, 1u8, object.priority];
    assert(contents(*buffer) =~= held + part1 + part2 + part3);

    let name_bytes = object.name.as_str().as_bytes();
    put_u8(buffer, 0x04);
    put_u8(buffer, (name_bytes.len() % 0x100) as u8);
    put_bytes(buffer, name_bytes);
    let ghost part4 = seq![4u8] + be_bytes(name_bytes@.len(), 1) + name_bytes@;
    assert(be_bytes(name_bytes@.len(), 1) =~= seq![(name_bytes@.len() % 0x100) as u8]) by {
        reveal_with_fuel(be_bytes, 2);
    }
    assert(contents(*buffer) =~= held + part1 + part2 + part3 + part4);

    put_u8(buffer, 0x00);
    assert(contents(*buffer) =~= held + (part1 + part2 + part3 + part4 + seq![0u8]));
}

/// Writes an object with its metadata.
pub fn serialize_object(object: &MoqObject) -> (buffer: BytesMut)
    requires
        has_room(encode_utf8(object.name@).len() + object.data@.len(), 40),
    ensures
        contents(buffer) == object_message(object@),
{
    let mut inner = new_buffer();
    put_header(&mut inner, object);
    put_metadata(&mut inner, object);
    put_len_u32(&mut inner, object.data.len());
    put_bytes(&mut inner, object.data.as_slice());
    assert(contents(inner) =~= object_body(object@));

    let mut buffer = new_buffer();
    put_len_u32(&mut buffer, buffer_len(&inner));
    put_bytes(&mut buffer, buffer_bytes(&inner));
    assert(contents(buffer) =~= object_message(object@));
    buffer
}

/// Appends the low thirty-two bits of a length.
fn put_len_u32(buffer: &mut BytesMut, n: usize)
    requires
        has_room(contents(*old(buffer)).len(), 4),
    ensures
        contents(*final(buffer)) == contents(*old(buffer)) + be_bytes(n as nat, 4),
{
    proof {
        lemma_capacities();
        lemma_be_bytes_truncate(n as nat, 4);
    }
    put_u32(buffer, (n as u64 % 0x1_0000_0000) as u32);
}

/// The fields of an object that metadata can set.
struct Fields {
    sequence: u64,
    group_id: u32,
    priority: u8,
    name: String,
}

impl View for Fields {
    type V = FieldsView;

    closed spec fn view(&self) -> FieldsView {
        FieldsView {
            sequence: self.sequence,
            group_id: self.group_id,
            priority: self.priority,
            name: self.name@,
        }
    }
}

/// Reads metadata up to and with the end marker.
fn take_metadata(buf: &mut BytesMut, flags: u8, Ghost(b): Ghost<Seq<u8>>) -> (r: Result<
    Fields,
    ProtoError,
>)
    requires
        b.len() >= 14,
        contents(*old(buf)) == b.skip(14),
        !(parse_metadata(b, 14, default_fields(flags)) is Unreadable),
    ensures
        match parse_metadata(b, 14, default_fields(flags)) {
            MetadataOutcome::Done(f, at) => r matches Ok(g) && g@ == f && 14 <= at <= b.len()
                && contents(*final(buf)) == b.skip(at),
            MetadataOutcome::Refused(e, at) => r == Err::<Fields, ProtoError>(e) && 14 <= at
                <= b.len() && contents(*final(buf)) == b.skip(at),
            MetadataOutcome::Unreadable => false,
        },
{
    let mut fields = Fields {
        sequence: 0,
        group_id: match flags {
            0x02 | 0x03 => MEDIA_TYPE_VIDEO as u32,
            0x04 => MEDIA_TYPE_AUDIO as u32,
            _ => MEDIA_TYPE_INIT as u32,
        },
        priority: if flags == 0x02 {
            255
        } else {
            128
        },
        name: String::new(),
    };
    let ghost mut at: int = 14;
    let ghost outcome = parse_metadata(b, 14, default_fields(flags));
    assert(fields@ =~= default_fields(flags));
    loop
        invariant
            14 <= at <= b.len(),
            contents(*buf) == b.skip(at),
            outcome == parse_metadata(b, at, fields@),
            outcome == parse_metadata(b, 14, default_fields(flags)),
            !(outcome is Unreadable),
        decreases b.len() - at,
    {
        if buffer_len(buf) == 0 {
            return Err(ProtoError::EndInMetadata);
        }
        let tlv_type = get_u8(buf);
        if tlv_type == 0 {
            return Ok(fields);
        }
        if buffer_len(buf) == 0 {
            return Err(ProtoError::NoTlvLength);
        }
        let length = get_u8(buf) as usize;
        if buffer_len(buf) < length {
            return Err(ProtoError::ShortTlvValue);
        }
        let ghost before = fields@;
        if tlv_type == 1 {
            fields.sequence = get_u64(buf);
            proof {
                assert(fields@ =~= FieldsView {
                    sequence: be_value(b.subrange(at + 2, at + 10)) as u64,
                    ..before
                });
                at = at + 10;
            }
        } else if tlv_type == 2 {
            fields.group_id = get_u32(buf);
            proof {
                assert(fields@ =~= FieldsView {
                    group_id: be_value(b.subrange(at + 2, at + 6)) as u32,
                    ..before
                });
                at = at + 6;
            }
        } else if tlv_type == 3 {
            fields.priority = get_u8(buf);
            proof {
                assert(fields@ =~= FieldsView { priority: b[at + 2], ..before });
                at = at + 3;
            }
        } else if tlv_type == 4 {
            let bytes = peek_bytes(buf, length);
            fields.name = match string_from_utf8(bytes) {
                Ok(name) => name,
                Err(fault) => return Err(ProtoError::InvalidUtf8(fault)),
            };
            advance(buf, length);
            proof {
                assert(fields@ =~= FieldsView {
                    name: decode_utf8(b.subrange(at + 2, at + 2 + length)),
                    ..before
                });
                at = at + 2 + length;
            }
        } else {
            advance(buf, length);
            proof {
                at = at + 2 + length;
            }
        }
    }
}

/// Reads the object at the head of the buffer. What an error has passed over is used up too.
pub fn deserialize_object(buf: &mut BytesMut) -> (r: Result<MoqObject, ProtoError>)
    requires
        !(parse_object(contents(*old(buf))) is Unreadable),
    ensures
        match parse_object(contents(*old(buf))) {
            ObjectOutcome::Read(o, used) => r matches Ok(object) && object@ == o && contents(
                *final(buf),
            ) == contents(*old(buf)).skip(used),
            ObjectOutcome::Refused(e, used) => r == Err::<MoqObject, ProtoError>(e) && contents(
                *final(buf),
            ) == contents(*old(buf)).skip(used),
            ObjectOutcome::Unreadable => false,
        },
{
    let ghost b = contents(*buf);
    if buffer_len(buf) < 4 {
        assert(b.skip(0) =~= b);
        return Err(ProtoError::NoMessageLength);
    }
    let total_length = get_u32(buf) as usize;
    if buffer_len(buf) < total_length {
        return Err(ProtoError::IncompleteMessage);
    }
    let msg_type = get_u8(buf);
    if msg_type != TYPE_OBJECT {
        return Err(ProtoError::InvalidMessageType(msg_type));
    }
    if buffer_len(buf) < 9 {
        return Err(ProtoError::NoBasicHeader);
    }
    let type_flags = get_u8(buf);
    let timestamp = get_u64(buf);
    let fields = match take_metadata(buf, type_flags, Ghost(b)) {
        Ok(fields) => fields,
        Err(e) => return Err(e),
    };
    if buffer_len(buf) < 4 {
        return Err(ProtoError::NoPayloadLength);
    }
    let payload_len = get_u32(buf) as usize;
    if buffer_len(buf) < payload_len {
        return Err(ProtoError::ShortPayload);
    }
    let data = peek_bytes(buf, payload_len);
    advance(buf, payload_len);
    Ok(
        MoqObject {
            name: fields.name,
            sequence: fields.sequence,
            timestamp,
            group_id: fields.group_id,
            priority: fields.priority,
            data,
        },
    )
}

/// Whether `deserialize_object` can be called: whether no number in the metadata is cut off and
/// the type byte is there.
pub fn object_is_readable(buf: &BytesMut) -> (b: bool)
    ensures
        b == !(parse_object(contents(*buf)) is Unreadable),
{
    let bytes = buffer_bytes(buf);
    let ghost b = bytes@;
    if bytes.len() < 4 {
        return true;
    }
    assert(b.subrange(0, 4) =~= b.take(4));
    if bytes.len() as u64 - 4 < read_be(bytes, 0, 4) {
        return true;
    }
    if bytes.len() == 4 {
        return false;
    }
    if bytes[4] != TYPE_OBJECT || bytes.len() < 14 {
        return true;
    }
    metadata_is_readable(bytes)
}

/// Whether no number in the metadata from place 14 on is cut off.
fn metadata_is_readable(bytes: &[u8]) -> (r: bool)
    requires
        bytes@.len() >= 14,
    ensures
        r == !(parse_metadata(bytes@, 14, default_fields(bytes@[5])) is Unreadable),
{
    let ghost b = bytes@;
    let ghost mut f = default_fields(b[5]);
    let mut at: usize = 14;
    loop
        invariant
            14 <= at <= b.len(),
            b == bytes@,
            parse_metadata(b, at as int, f) == parse_metadata(b, 14, default_fields(b[5])),
        decreases b.len() - at,
    {
        if at >= bytes.len() || bytes[at] == 0 || at + 1 >= bytes.len() {
            return true;
        }
        let length = bytes[at + 1] as usize;
        let left = bytes.len() - at - 2;
        if left < length {
            return true;
        }
        if bytes[at] == 1 {
            if left < 8 {
                return false;
            }
            proof {
                f = FieldsView { sequence: be_value(b.subrange(at + 2, at + 10)) as u64, ..f };
            }
            at = at + 10;
        } else if bytes[at] == 2 {
            if left < 4 {
                return false;
            }
            proof {
                f = FieldsView { group_id: be_value(b.subrange(at + 2, at + 6)) as u32, ..f };
            }
            at = at + 6;
        } else if bytes[at] == 3 {
            if left < 1 {
                return false;
            }
            proof {
                f = FieldsView { priority: b[at + 2], ..f };
            }
            at = at + 3;
        } else if bytes[at] == 4 {
            let text = slice_to_vec(slice_subrange(bytes, at + 2, at + 2 + length));
            if string_from_utf8(text).is_err() {
                return true;
            }
            proof {
                f = FieldsView { name: decode_utf8(b.subrange(at + 2, at + 2 + length)), ..f };
            }
            at = at + 2 + length;
        } else {
            at = at + 2 + length;
        }
    }
}

/// Law: an object is read back as it was written, whatever follows it, and nothing of what
/// follows is used up. The name must fit the one byte of its length, and the whole the four
/// bytes of the prefix.
pub proof fn law_object_round_trip(o: ObjectView, rest: Seq<u8>)
    requires
        encode_utf8(o.name).len() <= u8::MAX,
        object_body(o).len() <= u32::MAX,
    ensures
        parse_object(object_message(o) + rest) == ObjectOutcome::Read(
            o,
            object_message(o).len() as int,
        ),
{
    broadcast use vstd::utf8::encode_utf8_valid_utf8, vstd::utf8::encode_utf8_decode_utf8;

    lemma_capacities();
    let b = object_message(o) + rest;
    let name = encode_utf8(o.name);
    let n = name.len() as int;
    law_number_comes_back(object_body(o).len(), 4);
    law_number_comes_back(o.timestamp as nat, 8);
    law_number_comes_back(o.data.len(), 4);
    assert(b.take(4) =~= be_bytes(object_body(o).len(), 4));
    assert(b.subrange(6, 14) =~= be_bytes(o.timestamp as nat, 8));
    assert(b.subrange(14, 14 + object_metadata(o).len() as int) =~= object_metadata(o));
    lemma_metadata_round_trip(b, o);
    let at = 36 + n;
    assert(b.subrange(at, at + 4) =~= be_bytes(o.data.len(), 4));
    assert(b.subrange(at + 4, at + 4 + o.data.len()) =~= o.data);
}

proof fn lemma_metadata_round_trip(b: Seq<u8>, o: ObjectView)
    requires
        encode_utf8(o.name).len() <= u8::MAX,
        b.len() >= 14 + object_metadata(o).len(),
        b.subrange(14, 14 + object_metadata(o).len() as int) == object_metadata(o),
    ensures
        parse_metadata(b, 14, default_fields(b[5])) == MetadataOutcome::Done(
            FieldsView {
                sequence: o.sequence,
                group_id: o.group_id,
                priority: o.priority,
                name: o.name,
            },
            36 + encode_utf8(o.name).len() as int,
        ),
{
    broadcast use vstd::utf8::encode_utf8_valid_utf8, vstd::utf8::encode_utf8_decode_utf8;

    lemma_capacities();
    let name = encode_utf8(o.name);
    let n = name.len() as int;
    let m = object_metadata(o);
    let f0 = default_fields(b[5]);
    assert forall|i: int| 0 <= i < m.len() implies b[14 + i] == #[trigger] m[i] by {
        assert(b.subrange(14, 14 + m.len() as int)[i] == b[14 + i]);
    }
    law_number_comes_back(o.sequence as nat, 8);
    law_number_comes_back(o.group_id as nat, 4);
    assert(be_bytes(name.len(), 1) =~= seq![name.len() as u8]) by {
        reveal_with_fuel(be_bytes, 2);
    }
    assert(m[0] == 1 && m[1] == 8 && m[10] == 2 && m[11] == 4 && m[16] == 3 && m[17] == 1 && m[18]
        == o.priority && m[19] == 4 && m[20] == n && m[21 + n] == 0);
    assert(b.subrange(16, 24) =~= be_bytes(o.sequence as nat, 8)) by {
        assert forall|i: int| 0 <= i < 8 implies b[16 + i] == be_bytes(o.sequence as nat, 8)[i] by {
            assert(b[14 + (2 + i)] == m[2 + i]);
        }
    }
    assert(b.subrange(26, 30) =~= be_bytes(o.group_id as nat, 4)) by {
        assert forall|i: int| 0 <= i < 4 implies b[26 + i] == be_bytes(o.group_id as nat, 4)[i] by {
            assert(b[14 + (12 + i)] == m[12 + i]);
        }
    }
    assert(b.subrange(35, 35 + n) =~= name) by {
        assert forall|i: int| 0 <= i < n implies b[35 + i] == name[i] by {
            assert(b[14 + (21 + i)] == m[21 + i]);
        }
    }
    assert(b[14] == m[0] && b[15] == m[1] && b[24] == m[10] && b[25] == m[11]
        && b[30] == m[16] && b[31] == m[17] && b[32] == m[18] && b[33] == m[19]
        && b[34] == m[20] && b[14 + (21 + n)] == m[21 + n]);
    let f1 = FieldsView { sequence: o.sequence, ..f0 };
    let f2 = FieldsView { group_id: o.group_id, ..f1 };
    let f3 = FieldsView { priority: o.priority, ..f2 };
    let f4 = FieldsView { name: o.name, ..f3 };
    assert(parse_metadata(b, 14, f0) == parse_metadata(b, 24, f1));
    assert(parse_metadata(b, 24, f1) == parse_metadata(b, 30, f2));
    assert(parse_metadata(b, 30, f2) == parse_metadata(b, 33, f3));
    assert(parse_metadata(b, 33, f3) == parse_metadata(b, 35 + n, f4));
    assert(parse_metadata(b, 35 + n, f4) == MetadataOutcome::Done(f4, 36 + n));
}

/// Law: the flags of an object: 1 for an initialization segment, 2 for video of the highest
/// priority, 3 for other video, 4 for audio, and 0 for all else.
pub proof fn law_flags_by_kind(o: ObjectView)
    ensures
        o.group_id == 0 ==> type_flags(o) == 1,
        o.group_id == 1 && o.priority == 255 ==> type_flags(o) == 2,
        o.group_id == 1 && o.priority != 255 ==> type_flags(o) == 3,
        o.group_id == 2 ==> type_flags(o) == 4,
        o.group_id > 2 ==> type_flags(o) == 0,
{
}

/// Law: what the flags alone say of an object that names nothing else: number 0 and no name, video
/// under the flags 2 and 3, audio under 4, else an initialization segment; the highest priority
/// under 2, else 128.
pub proof fn law_defaults_by_flags(flags: u8)
    ensures
        ({
            let f = default_fields(flags);
            &&& f.sequence == 0
            &&& f.name.len() == 0
            &&& flags == 2 || flags == 3 ==> f.group_id == 1
            &&& flags == 4 ==> f.group_id == 2
            &&& flags != 2 && flags != 3 && flags != 4 ==> f.group_id == 0
            &&& flags == 2 ==> f.priority == 255
            &&& flags != 2 ==> f.priority == 128
        }),
{
}

/// Law: where things stand in an object with metadata: the length of what follows; the byte 16 and
/// the flags; the time; number, group, priority and name, each behind its type and its length, that
/// of the name as far as one byte can count; a zero; the length of the payload; the payload.
pub proof fn law_object_layout(o: ObjectView)
    requires
        36 + encode_utf8(o.name).len() + o.data.len() <= 4_294_967_295,
    ensures
        ({
            let b = object_message(o);
            let n = encode_utf8(o.name).len() as int;
            &&& b.len() == 40 + n + o.data.len()
            &&& be_value(b.subrange(0, 4)) == 36 + n + o.data.len()
            &&& b[4] == 16
            &&& b[5] == type_flags(o)
            &&& be_value(b.subrange(6, 14)) == o.timestamp
            &&& b[14] == 1 && b[15] == 8
            &&& be_value(b.subrange(16, 24)) == o.sequence
            &&& b[24] == 2 && b[25] == 4
            &&& be_value(b.subrange(26, 30)) == o.group_id
            &&& b[30] == 3 && b[31] == 1
            &&& b[32] == o.priority
            &&& b[33] == 4 && b[34] == n % 0x100
            &&& b.subrange(35, 35 + n) == encode_utf8(o.name)
            &&& b[35 + n] == 0
            &&& be_value(b.subrange(36 + n, 40 + n)) == o.data.len()
            &&& b.skip(40 + n) == o.data
        }),
{
    lemma_capacities();
    let b = object_message(o);
    let name = encode_utf8(o.name);
    let n = name.len() as int;
    assert(be_bytes(name.len(), 1) =~= seq![(name.len() % 0x100) as u8]) by {
        reveal_with_fuel(be_bytes, 2);
    }
    law_number_comes_back(object_body(o).len(), 4);
    law_number_comes_back(o.timestamp as nat, 8);
    law_number_comes_back(o.sequence as nat, 8);
    law_number_comes_back(o.group_id as nat, 4);
    law_number_comes_back(o.data.len(), 4);
    assert(b.subrange(0, 4) =~= be_bytes(object_body(o).len(), 4));
    assert(b.subrange(6, 14) =~= be_bytes(o.timestamp as nat, 8));
    assert(b.subrange(16, 24) =~= be_bytes(o.sequence as nat, 8));
    assert(b.subrange(26, 30) =~= be_bytes(o.group_id as nat, 4));
    assert(b.subrange(35, 35 + n) =~= name);
    assert(b.subrange(36 + n, 40 + n) =~= be_bytes(o.data.len(), 4));
    assert(b.skip(40 + n) =~= o.data);
}

/// Law: metadata is read field by field. A zero ends it. A field of type 1, 2, 3 or 4 sets the
/// number, the group, the priority or the name, in place of what was known. A field of any other
/// type is passed over with as many bytes as it declares.
pub proof fn law_metadata_field_by_field(b: Seq<u8>, at: int, f: FieldsView)
    requires
        0 <= at,
        at + 2 <= b.len(),
        at + 2 + b[at + 1] <= b.len(),
    ensures
        ({
            let n = b[at + 1] as int;
            &&& b[at] == 0 ==> parse_metadata(b, at, f) == MetadataOutcome::Done(f, at + 1)
            &&& b[at] == 1 && at + 10 <= b.len() ==> parse_metadata(b, at, f) == parse_metadata(
                b,
                at + 10,
                FieldsView { sequence: be_value(b.subrange(at + 2, at + 10)) as u64, ..f },
            )
            &&& b[at] == 2 && at + 6 <= b.len() ==> parse_metadata(b, at, f) == parse_metadata(
                b,
                at + 6,
                FieldsView { group_id: be_value(b.subrange(at + 2, at + 6)) as u32, ..f },
            )
            &&& b[at] == 3 && at + 3 <= b.len() ==> parse_metadata(b, at, f) == parse_metadata(
                b,
                at + 3,
                FieldsView { priority: b[at + 2], ..f },
            )
            &&& b[at] == 4 && valid_utf8(b.subrange(at + 2, at + 2 + n)) ==> parse_metadata(b, at, f)
                == parse_metadata(
                b,
                at + 2 + n,
                FieldsView { name: decode_utf8(b.subrange(at + 2, at + 2 + n)), ..f },
            )
            &&& b[at] > 4 ==> parse_metadata(b, at, f) == parse_metadata(b, at + 2 + n, f)
        }),
{
}

/// Law: when an object is refused before its metadata is read, and how many bytes that uses up.
pub proof fn law_when_objects_are_refused(b: Seq<u8>)
    ensures
        b.len() < 4 ==> parse_object(b) == ObjectOutcome::Refused(ProtoError::NoMessageLength, 0),
        b.len() >= 4 && b.len() - 4 < be_value(b.subrange(0, 4)) ==> parse_object(b)
            == ObjectOutcome::Refused(ProtoError::IncompleteMessage, 4),
        b.len() > 4 && b.len() - 4 >= be_value(b.subrange(0, 4)) && b[4] != 16 ==> parse_object(b)
            == ObjectOutcome::Refused(ProtoError::InvalidMessageType(b[4]), 5),
        4 < b.len() < 14 && b.len() - 4 >= be_value(b.subrange(0, 4)) && b[4] == 16 ==> parse_object(
            b,
        ) == ObjectOutcome::Refused(ProtoError::NoBasicHeader, 5),
{
    if b.len() >= 4 {
        assert(b.take(4) =~= b.subrange(0, 4));
    }
}

/// Law: what is read behind the metadata: the length of the payload and as many bytes, with the
/// fields and the time as they are.
pub proof fn law_payload_behind_metadata(b: Seq<u8>, at: int, f: FieldsView, timestamp: u64)
    requires
        0 <= at <= b.len(),
    ensures
        b.len() - at < 4 ==> parse_payload(b, at, f, timestamp) == ObjectOutcome::Refused(
            ProtoError::NoPayloadLength,
            at,
        ),
        b.len() - at >= 4 ==> {
            let n = be_value(b.subrange(at, at + 4)) as int;
            &&& b.len() < at + 4 + n ==> parse_payload(b, at, f, timestamp)
                == ObjectOutcome::Refused(ProtoError::ShortPayload, at + 4)
            &&& b.len() >= at + 4 + n ==> {
                &&& parse_payload(b, at, f, timestamp) matches ObjectOutcome::Read(o, used)
                &&& used == at + 4 + n
                &&& o.data == b.subrange(at + 4, at + 4 + n)
                &&& o.name == f.name
                &&& o.sequence == f.sequence
                &&& o.group_id == f.group_id
                &&& o.priority == f.priority
                &&& o.timestamp == timestamp
            }
        },
{
}

/// Law: where reading metadata stops short. At the end of the bytes; where a type has no length;
/// where a value is not all there; where a number declares fewer bytes than it has and they are
/// not there, which cannot be read at all; and where a name is no text.
pub proof fn law_metadata_that_stops_short(b: Seq<u8>, at: int, f: FieldsView)
    requires
        0 <= at,
    ensures
        at >= b.len() ==> parse_metadata(b, at, f) == MetadataOutcome::Refused(
            ProtoError::EndInMetadata,
            at,
        ),
        at < b.len() && b[at] == 0 ==> parse_metadata(b, at, f) == MetadataOutcome::Done(f, at + 1),
        at + 1 == b.len() && b[at] != 0 ==> parse_metadata(b, at, f) == MetadataOutcome::Refused(
            ProtoError::NoTlvLength,
            at + 1,
        ),
        at + 1 < b.len() && b[at] != 0 && b.len() < at + 2 + b[at + 1] ==> parse_metadata(b, at, f)
            == MetadataOutcome::Refused(ProtoError::ShortTlvValue, at + 2),
        at + 1 < b.len() && b.len() >= at + 2 + b[at + 1] ==> {
            let left = b.len() - (at + 2);
            let text = b.subrange(at + 2, at + 2 + b[at + 1]);
            &&& (b[at] == 1 && left < 8) || (b[at] == 2 && left < 4) || (b[at] == 3 && left < 1)
                ==> parse_metadata(b, at, f) is Unreadable
            &&& b[at] == 4 && !valid_utf8(text) ==> parse_metadata(b, at, f)
                == MetadataOutcome::Refused(ProtoError::InvalidUtf8(utf8_fault(text)), at + 2)
        },
{
}

/// Law: an object whose header is there is read through its metadata from the fifteenth byte on,
/// starting from what its flags say, and then through its payload, with the time of the header.
pub proof fn law_object_behind_its_header(b: Seq<u8>)
    requires
        b.len() >= 14,
        b.len() - 4 >= be_value(b.subrange(0, 4)),
        b[4] == 16,
    ensures
        parse_object(b) == match parse_metadata(b, 14, default_fields(b[5])) {
            MetadataOutcome::Unreadable => ObjectOutcome::Unreadable,
            MetadataOutcome::Refused(e, at) => ObjectOutcome::Refused(e, at),
            MetadataOutcome::Done(f, at) => parse_payload(
                b,
                at,
                f,
                be_value(b.subrange(6, 14)) as u64,
            ),
        },
{
    assert(b.take(4) =~= b.subrange(0, 4));
}

} // verus!
