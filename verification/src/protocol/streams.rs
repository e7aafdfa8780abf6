//! The streams of a connection: the byte that says what a stream is for, and the head of a data
//! stream.

use crate::ids::{swap_fields, StreamId};
use crate::proto::ProtoError;
use crate::text::{string_from_utf8, utf8_fault};
use vstd::prelude::*;
use vstd::utf8::{decode_utf8, encode_utf8, valid_utf8};

verus! {

pub const STREAM_TYPE_CONTROL: u8 = 0x01;

pub const STREAM_TYPE_DATA: u8 = 0x02;

pub const STREAM_TYPE_HTTP: u8 = 0x03;

/// What a stream is for.
#[derive(Debug, Clone, Copy, PartialEq, Eq, Structural)]
pub enum StreamType {
    Control,
    Data,
    Http,
    Unknown(u8),
}

/// What the first byte of a stream says.
pub open spec fn stream_type_of(b: u8) -> StreamType {
    if b == STREAM_TYPE_CONTROL {
        StreamType::Control
    } else if b == STREAM_TYPE_DATA {
        StreamType::Data
    } else if b == STREAM_TYPE_HTTP {
        StreamType::Http
    } else {
        StreamType::Unknown(b)
    }
}

/// What the first byte of a stream says.
pub fn stream_type(b: u8) -> (t: StreamType)
    ensures
        t == stream_type_of(b),
{
    match b {
        STREAM_TYPE_CONTROL => StreamType::Control,
        STREAM_TYPE_DATA => StreamType::Data,
        STREAM_TYPE_HTTP => StreamType::Http,
        unknown => StreamType::Unknown(unknown),
    }
}

/// The low sixteen bits of a length, least significant byte first.
pub open spec fn le_length(n: nat) -> Seq<u8> {
    seq![(n % 256) as u8, (n / 256 % 256) as u8]
}

/// The length that two bytes spell, least significant first.
pub open spec fn le_value(b: Seq<u8>) -> nat {
    b[0] as nat + 256 * b[1] as nat
}

/// The head of a data stream: the type byte, the identifier of the stream with its leading
/// fields little-endian, the length of the namespace, and the namespace.
pub open spec fn data_stream_head(stream_id: Seq<u8>, namespace: Seq<char>) -> Seq<u8> {
    seq![STREAM_TYPE_DATA] + swap_fields(stream_id) + le_length(encode_utf8(namespace).len())
        + encode_utf8(namespace)
}

/// Writes the head of a data stream.
pub fn data_stream_header(stream_id: &StreamId, namespace: &str) -> (head: Vec<u8>)
    ensures
        head@ == data_stream_head(stream_id@, namespace@),
{
    let mut head: Vec<u8> = Vec::new();
    head.push(STREAM_TYPE_DATA);
    let id = stream_id.to_bytes_le();
    head.extend_from_slice(&id);
    let namespace_bytes = namespace.as_bytes();
    let n = namespace_bytes.len();
    head.push((n % 256) as u8);
    head.push((n / 256 % 256) as u8);
    head.extend_from_slice(namespace_bytes);
    assert(head@ =~= data_stream_head(stream_id@, namespace@));
    head
}

/// How many bytes of namespace follow, as the two bytes behind the identifier say.
pub fn namespace_length(bytes: [u8; 2]) -> (n: usize)
    ensures
        n == le_value(bytes@),
        n <= u16::MAX,
{
    bytes[0] as usize + 256 * bytes[1] as usize
}

/// Whether the bytes of an identifier and those of a namespace are read as `r`.
pub open spec fn is_head_read(
    id_bytes: Seq<u8>,
    namespace_bytes: Seq<u8>,
    r: Result<(StreamId, String), ProtoError>,
) -> bool {
    match r {
        Ok((id, namespace)) => id@ == swap_fields(id_bytes) && valid_utf8(namespace_bytes)
            && namespace@ == decode_utf8(namespace_bytes),
        Err(e) => e == ProtoError::InvalidUtf8(utf8_fault(namespace_bytes)) && !valid_utf8(
            namespace_bytes,
        ),
    }
}

/// What the head of a data stream says, from the bytes of the identifier and those of the
/// namespace.
pub fn read_data_stream_header(id_bytes: [u8; 16], namespace_bytes: Vec<u8>) -> (r: Result<
    (StreamId, String),
    ProtoError,
>)
    ensures
        is_head_read(id_bytes@, namespace_bytes@, r),
        match r {
            Ok((id, namespace)) => id@ == swap_fields(id_bytes@) && valid_utf8(namespace_bytes@)
                && namespace@ == decode_utf8(namespace_bytes@),
            Err(e) => e == ProtoError::InvalidUtf8(utf8_fault(namespace_bytes@)) && !valid_utf8(
                namespace_bytes@,
            ),
        },
{
    let id = StreamId::from_bytes_le(id_bytes);
    match string_from_utf8(namespace_bytes) {
        Ok(namespace) => Ok((id, namespace)),
        Err(fault) => Err(ProtoError::InvalidUtf8(fault)),
    }
}

/// Law: a publisher finds in the head of a data stream the stream and the namespace that the
/// subscriber wrote: sixteen bytes of identifier behind the type byte, then the length, then as
/// many bytes of namespace.
pub proof fn law_data_stream_head_round_trip(stream_id: Seq<u8>, namespace: Seq<char>)
    requires
        stream_id.len() == 16,
        encode_utf8(namespace).len() <= u16::MAX,
    ensures
        ({
            let head = data_stream_head(stream_id, namespace);
            let n = le_value(head.subrange(17, 19)) as int;
            let rest = head.subrange(19, 19 + n);
            &&& stream_type_of(head[0]) == StreamType::Data
            &&& swap_fields(head.subrange(1, 17)) == stream_id
            &&& head.len() == 19 + n
            &&& valid_utf8(rest)
            &&& decode_utf8(rest) == namespace
        }),
{
    broadcast use vstd::utf8::encode_utf8_valid_utf8, vstd::utf8::encode_utf8_decode_utf8;

    let head = data_stream_head(stream_id, namespace);
    let ns = encode_utf8(namespace);
    let n = ns.len() as int;
    assert(head.subrange(1, 17) =~= swap_fields(stream_id));
    crate::ids::law_swap_fields_involution(stream_id);
    assert(head.subrange(17, 19) =~= le_length(ns.len()));
    assert(le_value(le_length(ns.len())) == ns.len());
    assert(head.subrange(19, 19 + n) =~= ns);
}

/// Law: a stream that starts with the byte 1 is for control, with 2 for data, with 3 for requests
/// for files, and with any other unknown.
pub proof fn law_streams_by_first_byte(b: u8)
    ensures
        stream_type_of(b) is Control <==> b == 1,
        stream_type_of(b) is Data <==> b == 2,
        stream_type_of(b) is Http <==> b == 3,
        b != 1 && b != 2 && b != 3 ==> stream_type_of(b) == StreamType::Unknown(b),
{
}

/// Law: where things stand in the head of a data stream: the byte 2; the identifier with its first
/// four bytes, the next two and the next two each in the other order; the length of the namespace,
/// low byte first; the namespace.
pub proof fn law_data_stream_head_layout(stream_id: Seq<u8>, namespace: Seq<char>)
    requires
        stream_id.len() == 16,
    ensures
        ({
            let head = data_stream_head(stream_id, namespace);
            let n = encode_utf8(namespace).len() as int;
            &&& head.len() == 19 + n
            &&& head[0] == 2
            &&& head.subrange(1, 5) == stream_id.subrange(0, 4).reverse()
            &&& head.subrange(5, 7) == stream_id.subrange(4, 6).reverse()
            &&& head.subrange(7, 9) == stream_id.subrange(6, 8).reverse()
            &&& head.subrange(9, 17) == stream_id.subrange(8, 16)
            &&& head[17] + 256 * head[18] == n % 0x1_0000
            &&& head.skip(19) == encode_utf8(namespace)
        }),
{
    let head = data_stream_head(stream_id, namespace);
    assert(head.subrange(1, 5) =~= stream_id.subrange(0, 4).reverse());
    assert(head.subrange(5, 7) =~= stream_id.subrange(4, 6).reverse());
    assert(head.subrange(7, 9) =~= stream_id.subrange(6, 8).reverse());
    assert(head.subrange(9, 17) =~= stream_id.subrange(8, 16));
    assert(head.skip(19) =~= encode_utf8(namespace));
}

/// Law: two bytes are a length, low byte first.
pub proof fn law_length_low_byte_first(low: u8, high: u8)
    ensures
        le_value(seq![low, high]) == low + 256 * high,
{
}

/// Law: whoever reads the head of a data stream, in the pieces in which it was written, gets the
/// stream and the namespace that were written.
pub proof fn law_head_is_read_as_written(
    stream_id: Seq<u8>,
    namespace: Seq<char>,
    r: Result<(StreamId, String), ProtoError>,
)
    requires
        stream_id.len() == 16,
        encode_utf8(namespace).len() <= 65_535,
        is_head_read(
            data_stream_head(stream_id, namespace).subrange(1, 17),
            data_stream_head(stream_id, namespace).skip(19),
            r,
        ),
    ensures
        r matches Ok((id, ns)) && id.bytes@ == stream_id && ns@ == namespace,
{
    law_data_stream_head_round_trip(stream_id, namespace);
    let head = data_stream_head(stream_id, namespace);
    assert(head.skip(19) =~= head.subrange(19, head.len() as int));
}

} // verus!
