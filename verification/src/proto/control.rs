//! Control messages: what travels on a control stream.

use super::{
    ProtoError, TYPE_CANCEL, TYPE_HEARTBEAT, TYPE_REQUEST, TYPE_SUBSCRIBE, TYPE_SUBSCRIBE_OK,
    TYPE_TERMINATE, TYPE_UNSUBSCRIBE,
};
use crate::buffer::{
    advance, buffer_bytes, buffer_len, contents, get_u16, get_u32, get_u64, get_u8, has_room, new_buffer,
    peek_bytes, put_bytes, put_u16, put_u32, put_u64, put_u8,
};
use crate::ids::StreamId;
use crate::text::{string_from_utf8, utf8_fault};
use crate::wire::{
    be_bytes, be_value, group_reading, lemma_be_bytes_truncate, law_number_comes_back,
    lemma_capacities,
};
use bytes::BytesMut;
use vstd::prelude::*;
use vstd::slice::slice_subrange;
use vstd::utf8::{decode_utf8, encode_utf8, valid_utf8};

verus! {

broadcast use group_reading;

/// A request to receive a stream.
#[verifier::ext_equal]
pub struct SubscribeView {
    pub stream_id: Seq<u8>,
    pub namespace: Seq<char>,
    pub start_sequence: u64,
    pub group_id: u32,
    pub priority: u8,
}

/// The bytes of a SUBSCRIBE message. Of the length of the namespace only the low sixteen bits
/// are written.
pub open spec fn subscribe_message(m: SubscribeView) -> Seq<u8> {
    seq![TYPE_SUBSCRIBE] + be_bytes(encode_utf8(m.namespace).len(), 2) + m.stream_id + encode_utf8(
        m.namespace,
    ) + be_bytes(m.start_sequence as nat, 8) + be_bytes(m.group_id as nat, 4) + seq![m.priority]
}

/// What a SUBSCRIBE message at the head of `b` says, and how many bytes reading it uses up.
/// The type byte is passed over unread.
pub open spec fn parse_subscribe(b: Seq<u8>) -> (Result<SubscribeView, ProtoError>, nat) {
    let n = be_value(b.subrange(1, 3));
    if b.len() < 3 {
        (Err(ProtoError::IncompleteSubscribeHeader), 0)
    } else if b.len() < 32 + n {
        (Err(ProtoError::IncompleteSubscribeBody), 3)
    } else if !valid_utf8(b.subrange(19, 19 + n as int)) {
        (Err(ProtoError::InvalidUtf8(utf8_fault(b.subrange(19, 19 + n as int)))), 19)
    } else {
        (
            Ok(
                SubscribeView {
                    stream_id: b.subrange(3, 19),
                    namespace: decode_utf8(b.subrange(19, 19 + n as int)),
                    start_sequence: be_value(b.subrange(19 + n as int, 27 + n as int)) as u64,
                    group_id: be_value(b.subrange(27 + n as int, 31 + n as int)) as u32,
                    priority: b[31 + n as int],
                },
            ),
            32 + n,
        )
    }
}

/// Whether an outcome is the one that was read.
pub open spec fn is_subscribe(
    r: Result<(StreamId, String, u64, u32, u8), ProtoError>,
    parsed: Result<SubscribeView, ProtoError>,
) -> bool {
    match (r, parsed) {
        (Ok(t), Ok(m)) => t.0@ == m.stream_id && t.1@ == m.namespace && t.2 == m.start_sequence
            && t.3 == m.group_id && t.4 == m.priority,
        (Err(e), Err(f)) => e == f,
        _ => false,
    }
}

/// Writes a SUBSCRIBE message.
pub fn serialize_subscribe(
    stream_id: StreamId,
    namespace: &str,
    start_sequence: u64,
    group_id: u32,
    priority: u8,
) -> (buffer: BytesMut)
    requires
        has_room(encode_utf8(namespace@).len(), 32),
    ensures
        contents(buffer) == subscribe_message(
            SubscribeView {
                stream_id: stream_id@,
                namespace: namespace@,
                start_sequence,
                group_id,
                priority,
            },
        ),
{
    let mut buffer = new_buffer();
    put_u8(&mut buffer, TYPE_SUBSCRIBE);
    let ns_bytes = namespace.as_bytes();
    put_len_u16(&mut buffer, ns_bytes.len());
    put_bytes(&mut buffer, &stream_id.bytes);
    put_bytes(&mut buffer, ns_bytes);
    put_u64(&mut buffer, start_sequence);
    put_u32(&mut buffer, group_id);
    put_u8(&mut buffer, priority);
    assert(contents(buffer) =~= subscribe_message(
        SubscribeView {
            stream_id: stream_id@,
            namespace: namespace@,
            start_sequence,
            group_id,
            priority,
        },
    ));
    buffer
}

/// Appends the low sixteen bits of a length.
pub(crate) fn put_len_u16(buffer: &mut BytesMut, n: usize)
    requires
        has_room(contents(*old(buffer)).len(), 2),
    ensures
        contents(*final(buffer)) == contents(*old(buffer)) + be_bytes(n as nat, 2),
{
    proof {
        lemma_capacities();
        lemma_be_bytes_truncate(n as nat, 2);
    }
    put_u16(buffer, (n % 0x1_0000) as u16);
}

/// Takes the next sixteen bytes as the identifier of a stream.
fn take_stream_id(buffer: &mut BytesMut) -> (id: StreamId)
    requires
        contents(*old(buffer)).len() >= 16,
    ensures
        id@ == contents(*old(buffer)).take(16),
        contents(*final(buffer)) == contents(*old(buffer)).skip(16),
{
    let id = StreamId::from_slice(slice_subrange(buffer_bytes(buffer), 0, 16)).unwrap();
    assert(id@ =~= contents(*buffer).take(16));
    advance(buffer, 16);
    id
}

/// Reads the SUBSCRIBE message at the head of the buffer. What an error has passed over is used up
/// too.
pub fn deserialize_subscribe(buffer: &mut BytesMut) -> (r: Result<
    (StreamId, String, u64, u32, u8),
    ProtoError,
>)
    ensures
        is_subscribe(r, parse_subscribe(contents(*old(buffer))).0),
        contents(*final(buffer)) == contents(*old(buffer)).skip(
            parse_subscribe(contents(*old(buffer))).1 as int,
        ),
{
    let ghost b = contents(*buffer);
    if buffer_len(buffer) < 3 {
        assert(b.skip(0) =~= b);
        return Err(ProtoError::IncompleteSubscribeHeader);
    }
    advance(buffer, 1);
    let ns_len = get_u16(buffer) as usize;
    if buffer_len(buffer) < 16 + ns_len + 13 {
        return Err(ProtoError::IncompleteSubscribeBody);
    }
    let stream_id = take_stream_id(buffer);
    let ns_bytes = peek_bytes(buffer, ns_len);
    let namespace = match string_from_utf8(ns_bytes) {
        Ok(namespace) => namespace,
        Err(fault) => return Err(ProtoError::InvalidUtf8(fault)),
    };
    advance(buffer, ns_len);
    let start_sequence = get_u64(buffer);
    let group_id = get_u32(buffer);
    let priority = get_u8(buffer);
    Ok((stream_id, namespace, start_sequence, group_id, priority))
}

/// A stream in a namespace.
#[verifier::ext_equal]
pub struct StreamView {
    pub stream_id: Seq<u8>,
    pub namespace: Seq<char>,
}

/// The bytes of an UNSUBSCRIBE message.
pub open spec fn unsubscribe_message(m: StreamView) -> Seq<u8> {
    seq![TYPE_UNSUBSCRIBE] + m.stream_id + be_bytes(encode_utf8(m.namespace).len(), 2)
        + encode_utf8(m.namespace)
}

/// What an UNSUBSCRIBE message at the head of `b` says, and how many bytes reading it uses up.
pub open spec fn parse_unsubscribe(b: Seq<u8>) -> (Result<StreamView, ProtoError>, nat) {
    let n = be_value(b.subrange(17, 19));
    if b.len() < 19 {
        (Err(ProtoError::IncompleteUnsubscribe), 0)
    } else if b.len() < 19 + n {
        (Err(ProtoError::IncompleteNamespace), 19)
    } else if !valid_utf8(b.subrange(19, 19 + n as int)) {
        (Err(ProtoError::InvalidUtf8(utf8_fault(b.subrange(19, 19 + n as int)))), 19)
    } else {
        (
            Ok(
                StreamView {
                    stream_id: b.subrange(1, 17),
                    namespace: decode_utf8(b.subrange(19, 19 + n as int)),
                },
            ),
            19 + n,
        )
    }
}

/// Whether an outcome is the one that was read.
pub open spec fn is_unsubscribe(
    r: Result<(StreamId, String), ProtoError>,
    parsed: Result<StreamView, ProtoError>,
) -> bool {
    match (r, parsed) {
        (Ok(t), Ok(m)) => t.0@ == m.stream_id && t.1@ == m.namespace,
        (Err(e), Err(f)) => e == f,
        _ => false,
    }
}

/// Writes an UNSUBSCRIBE message.
pub fn serialize_unsubscribe(stream_id: StreamId, namespace: &str) -> (buffer: BytesMut)
    requires
        has_room(encode_utf8(namespace@).len(), 19),
    ensures
        contents(buffer) == unsubscribe_message(
            StreamView { stream_id: stream_id@, namespace: namespace@ },
        ),
{
    let mut buffer = new_buffer();
    put_u8(&mut buffer, TYPE_UNSUBSCRIBE);
    put_bytes(&mut buffer, &stream_id.bytes);
    let ns_bytes = namespace.as_bytes();
    put_len_u16(&mut buffer, ns_bytes.len());
    put_bytes(&mut buffer, ns_bytes);
    assert(contents(buffer) =~= unsubscribe_message(
        StreamView { stream_id: stream_id@, namespace: namespace@ },
    ));
    buffer
}

/// Reads the UNSUBSCRIBE message at the head of the buffer.
pub fn deserialize_unsubscribe(buffer: &mut BytesMut) -> (r: Result<
    (StreamId, String),
    ProtoError,
>)
    ensures
        is_unsubscribe(r, parse_unsubscribe(contents(*old(buffer))).0),
        contents(*final(buffer)) == contents(*old(buffer)).skip(
            parse_unsubscribe(contents(*old(buffer))).1 as int,
        ),
{
    let ghost b = contents(*buffer);
    if buffer_len(buffer) < 19 {
        assert(b.skip(0) =~= b);
        return Err(ProtoError::IncompleteUnsubscribe);
    }
    advance(buffer, 1);
    let stream_id = take_stream_id(buffer);
    let ns_len = get_u16(buffer) as usize;
    if buffer_len(buffer) < ns_len {
        return Err(ProtoError::IncompleteNamespace);
    }
    let ns_bytes = peek_bytes(buffer, ns_len);
    let namespace = match string_from_utf8(ns_bytes) {
        Ok(namespace) => namespace,
        Err(fault) => return Err(ProtoError::InvalidUtf8(fault)),
    };
    advance(buffer, ns_len);
    Ok((stream_id, namespace))
}

/// The bytes of a message that is one type byte and one number of eight bytes.
pub open spec fn number_message(message_type: u8, n: u64) -> Seq<u8> {
    seq![message_type] + be_bytes(n as nat, 8)
}

/// What such a message at the head of `b` says, and how many bytes reading it uses up.
pub open spec fn parse_number(b: Seq<u8>, incomplete: ProtoError) -> (
    Result<u64, ProtoError>,
    nat,
) {
    if b.len() < 9 {
        (Err(incomplete), 0)
    } else {
        (Ok(be_value(b.subrange(1, 9)) as u64), 9)
    }
}

fn put_number(message_type: u8, n: u64) -> (buffer: BytesMut)
    ensures
        contents(buffer) == number_message(message_type, n),
{
    let mut buffer = new_buffer();
    put_u8(&mut buffer, message_type);
    put_u64(&mut buffer, n);
    assert(contents(buffer) =~= number_message(message_type, n));
    buffer
}

fn take_number(buffer: &mut BytesMut, incomplete: ProtoError) -> (r: Result<u64, ProtoError>)
    ensures
        r == parse_number(contents(*old(buffer)), incomplete).0,
        contents(*final(buffer)) == contents(*old(buffer)).skip(
            parse_number(contents(*old(buffer)), incomplete).1 as int,
        ),
{
    let ghost b = contents(*buffer);
    if buffer_len(buffer) < 9 {
        assert(b.skip(0) =~= b);
        return Err(incomplete);
    }
    advance(buffer, 1);
    Ok(get_u64(buffer))
}

/// Writes a CANCEL message.
pub fn serialize_cancel(sequence: u64) -> (buffer: BytesMut)
    ensures
        contents(buffer) == number_message(TYPE_CANCEL, sequence),
{
    put_number(TYPE_CANCEL, sequence)
}

/// Reads the CANCEL message at the head of the buffer.
pub fn deserialize_cancel(buffer: &mut BytesMut) -> (r: Result<u64, ProtoError>)
    ensures
        r == parse_number(contents(*old(buffer)), ProtoError::IncompleteCancel).0,
        contents(*final(buffer)) == contents(*old(buffer)).skip(
            parse_number(contents(*old(buffer)), ProtoError::IncompleteCancel).1 as int,
        ),
{
    take_number(buffer, ProtoError::IncompleteCancel)
}

/// A request to send an object again.
#[verifier::ext_equal]
pub struct RequestView {
    pub stream_id: Seq<u8>,
    pub namespace: Seq<char>,
    pub sequence: u64,
}

/// The bytes of a REQUEST message.
pub open spec fn request_message(m: RequestView) -> Seq<u8> {
    seq![TYPE_REQUEST] + m.stream_id + be_bytes(encode_utf8(m.namespace).len(), 2) + encode_utf8(
        m.namespace,
    ) + be_bytes(m.sequence as nat, 8)
}

/// What a REQUEST message at the head of `b` says, and how many bytes reading it uses up.
pub open spec fn parse_request(b: Seq<u8>) -> (Result<RequestView, ProtoError>, nat) {
    let n = be_value(b.subrange(17, 19));
    if b.len() < 27 {
        (Err(ProtoError::IncompleteRequest), 0)
    } else if b.len() < 27 + n {
        (Err(ProtoError::IncompleteNamespaceOrSequence), 19)
    } else if !valid_utf8(b.subrange(19, 19 + n as int)) {
        (Err(ProtoError::InvalidUtf8(utf8_fault(b.subrange(19, 19 + n as int)))), 19)
    } else {
        (
            Ok(
                RequestView {
                    stream_id: b.subrange(1, 17),
                    namespace: decode_utf8(b.subrange(19, 19 + n as int)),
                    sequence: be_value(b.subrange(19 + n as int, 27 + n as int)) as u64,
                },
            ),
            27 + n,
        )
    }
}

/// Whether an outcome is the one that was read.
pub open spec fn is_request(
    r: Result<(StreamId, String, u64), ProtoError>,
    parsed: Result<RequestView, ProtoError>,
) -> bool {
    match (r, parsed) {
        (Ok(t), Ok(m)) => t.0@ == m.stream_id && t.1@ == m.namespace && t.2 == m.sequence,
        (Err(e), Err(f)) => e == f,
        _ => false,
    }
}

/// Writes a REQUEST message.
pub fn serialize_request(stream_id: StreamId, namespace: &str, sequence: u64) -> (buffer:
    BytesMut)
    requires
        has_room(encode_utf8(namespace@).len(), 27),
    ensures
        contents(buffer) == request_message(
            RequestView { stream_id: stream_id@, namespace: namespace@, sequence },
        ),
{
    let mut buffer = new_buffer();
    put_u8(&mut buffer, TYPE_REQUEST);
    put_bytes(&mut buffer, &stream_id.bytes);
    let ns_bytes = namespace.as_bytes();
    put_len_u16(&mut buffer, ns_bytes.len());
    put_bytes(&mut buffer, ns_bytes);
    put_u64(&mut buffer, sequence);
    assert(contents(buffer) =~= request_message(
        RequestView { stream_id: stream_id@, namespace: namespace@, sequence },
    ));
    buffer
}

/// Reads the REQUEST message at the head of the buffer.
pub fn deserialize_request(buffer: &mut BytesMut) -> (r: Result<
    (StreamId, String, u64),
    ProtoError,
>)
    ensures
        is_request(r, parse_request(contents(*old(buffer))).0),
        contents(*final(buffer)) == contents(*old(buffer)).skip(
            parse_request(contents(*old(buffer))).1 as int,
        ),
{
    let ghost b = contents(*buffer);
    if buffer_len(buffer) < 27 {
        assert(b.skip(0) =~= b);
        return Err(ProtoError::IncompleteRequest);
    }
    advance(buffer, 1);
    let stream_id = take_stream_id(buffer);
    let ns_len = get_u16(buffer) as usize;
    if buffer_len(buffer) < ns_len + 8 {
        return Err(ProtoError::IncompleteNamespaceOrSequence);
    }
    let ns_bytes = peek_bytes(buffer, ns_len);
    let namespace = match string_from_utf8(ns_bytes) {
        Ok(namespace) => namespace,
        Err(fault) => return Err(ProtoError::InvalidUtf8(fault)),
    };
    advance(buffer, ns_len);
    let sequence = get_u64(buffer);
    Ok((stream_id, namespace, sequence))
}

/// The bytes of a TERMINATE message.
pub open spec fn terminate_message(reason: u8) -> Seq<u8> {
    seq![TYPE_TERMINATE, reason]
}

/// What a TERMINATE message at the head of `b` says, and how many bytes reading it uses up.
pub open spec fn parse_terminate(b: Seq<u8>) -> (Result<u8, ProtoError>, nat) {
    if b.len() < 2 {
        (Err(ProtoError::IncompleteTerminate), 0)
    } else {
        (Ok(b[1]), 2)
    }
}

/// Writes a TERMINATE message.
pub fn serialize_terminate(reason: u8) -> (buffer: BytesMut)
    ensures
        contents(buffer) == terminate_message(reason),
{
    let mut buffer = new_buffer();
    put_u8(&mut buffer, TYPE_TERMINATE);
    put_u8(&mut buffer, reason);
    assert(contents(buffer) =~= terminate_message(reason));
    buffer
}

/// Reads the TERMINATE message at the head of the buffer.
pub fn deserialize_terminate(buffer: &mut BytesMut) -> (r: Result<u8, ProtoError>)
    ensures
        r == parse_terminate(contents(*old(buffer))).0,
        contents(*final(buffer)) == contents(*old(buffer)).skip(
            parse_terminate(contents(*old(buffer))).1 as int,
        ),
{
    let ghost b = contents(*buffer);
    if buffer_len(buffer) < 2 {
        assert(b.skip(0) =~= b);
        return Err(ProtoError::IncompleteTerminate);
    }
    advance(buffer, 1);
    Ok(get_u8(buffer))
}

/// Writes a HEARTBEAT message.
pub fn serialize_heartbeat(timestamp: u64) -> (buffer: BytesMut)
    ensures
        contents(buffer) == number_message(TYPE_HEARTBEAT, timestamp),
{
    put_number(TYPE_HEARTBEAT, timestamp)
}

/// Reads the HEARTBEAT message at the head of the buffer.
pub fn deserialize_heartbeat(buffer: &mut BytesMut) -> (r: Result<u64, ProtoError>)
    ensures
        r == parse_number(contents(*old(buffer)), ProtoError::IncompleteHeartbeat).0,
        contents(*final(buffer)) == contents(*old(buffer)).skip(
            parse_number(contents(*old(buffer)), ProtoError::IncompleteHeartbeat).1 as int,
        ),
{
    take_number(buffer, ProtoError::IncompleteHeartbeat)
}

/// The bytes of a SUBSCRIBE_OK message.
pub open spec fn subscribe_ok_message(stream_id: Seq<u8>) -> Seq<u8> {
    seq![TYPE_SUBSCRIBE_OK] + stream_id
}

/// What a SUBSCRIBE_OK message at the head of `b` says, and how many bytes reading it uses up.
pub open spec fn parse_subscribe_ok(b: Seq<u8>) -> (Result<Seq<u8>, ProtoError>, nat) {
    if b.len() < 17 {
        (Err(ProtoError::IncompleteSubscribeOk), 0)
    } else {
        (Ok(b.subrange(1, 17)), 17)
    }
}

/// Writes a SUBSCRIBE_OK message.
pub fn serialize_subscribe_ok(stream_id: StreamId) -> (buffer: BytesMut)
    ensures
        contents(buffer) == subscribe_ok_message(stream_id@),
{
    let mut buffer = new_buffer();
    put_u8(&mut buffer, TYPE_SUBSCRIBE_OK);
    put_bytes(&mut buffer, &stream_id.bytes);
    assert(contents(buffer) =~= subscribe_ok_message(stream_id@));
    buffer
}

/// Reads the SUBSCRIBE_OK message at the head of the buffer.
pub fn deserialize_subscribe_ok(buffer: &mut BytesMut) -> (r: Result<StreamId, ProtoError>)
    ensures
        match (r, parse_subscribe_ok(contents(*old(buffer))).0) {
            (Ok(id), Ok(bytes)) => id@ == bytes,
            (Err(e), Err(f)) => e == f,
            _ => false,
        },
        contents(*final(buffer)) == contents(*old(buffer)).skip(
            parse_subscribe_ok(contents(*old(buffer))).1 as int,
        ),
{
    let ghost b = contents(*buffer);
    if buffer_len(buffer) < 17 {
        assert(b.skip(0) =~= b);
        return Err(ProtoError::IncompleteSubscribeOk);
    }
    advance(buffer, 1);
    Ok(take_stream_id(buffer))
}

/// Law: a SUBSCRIBE message is read back as it was written, whatever follows it, and nothing
/// of what follows is used up.
pub proof fn law_subscribe_round_trip(m: SubscribeView, rest: Seq<u8>)
    requires
        m.stream_id.len() == 16,
        encode_utf8(m.namespace).len() <= u16::MAX,
    ensures
        parse_subscribe(subscribe_message(m) + rest) == (
            Ok::<SubscribeView, ProtoError>(m),
            subscribe_message(m).len(),
        ),
{
    broadcast use vstd::utf8::encode_utf8_valid_utf8, vstd::utf8::encode_utf8_decode_utf8;

    lemma_capacities();
    let b = subscribe_message(m) + rest;
    let ns = encode_utf8(m.namespace);
    let n = ns.len();
    law_number_comes_back(n, 2);
    law_number_comes_back(m.start_sequence as nat, 8);
    law_number_comes_back(m.group_id as nat, 4);
    assert(b.subrange(1, 3) =~= be_bytes(n, 2));
    assert(b.subrange(3, 19) =~= m.stream_id);
    assert(b.subrange(19, 19 + n as int) =~= ns);
    assert(b.subrange(19 + n as int, 27 + n as int) =~= be_bytes(m.start_sequence as nat, 8));
    assert(b.subrange(27 + n as int, 31 + n as int) =~= be_bytes(m.group_id as nat, 4));
}

/// Law: an UNSUBSCRIBE message is read back as it was written.
pub proof fn law_unsubscribe_round_trip(m: StreamView, rest: Seq<u8>)
    requires
        m.stream_id.len() == 16,
        encode_utf8(m.namespace).len() <= u16::MAX,
    ensures
        parse_unsubscribe(unsubscribe_message(m) + rest) == (
            Ok::<StreamView, ProtoError>(m),
            unsubscribe_message(m).len(),
        ),
{
    broadcast use vstd::utf8::encode_utf8_valid_utf8, vstd::utf8::encode_utf8_decode_utf8;

    lemma_capacities();
    let b = unsubscribe_message(m) + rest;
    let ns = encode_utf8(m.namespace);
    let n = ns.len();
    law_number_comes_back(n, 2);
    assert(b.subrange(1, 17) =~= m.stream_id);
    assert(b.subrange(17, 19) =~= be_bytes(n, 2));
    assert(b.subrange(19, 19 + n as int) =~= ns);
}

/// Law: a REQUEST message is read back as it was written.
pub proof fn law_request_round_trip(m: RequestView, rest: Seq<u8>)
    requires
        m.stream_id.len() == 16,
        encode_utf8(m.namespace).len() <= u16::MAX,
    ensures
        parse_request(request_message(m) + rest) == (
            Ok::<RequestView, ProtoError>(m),
            request_message(m).len(),
        ),
{
    broadcast use vstd::utf8::encode_utf8_valid_utf8, vstd::utf8::encode_utf8_decode_utf8;

    lemma_capacities();
    let b = request_message(m) + rest;
    let ns = encode_utf8(m.namespace);
    let n = ns.len();
    law_number_comes_back(n, 2);
    law_number_comes_back(m.sequence as nat, 8);
    assert(b.subrange(1, 17) =~= m.stream_id);
    assert(b.subrange(17, 19) =~= be_bytes(n, 2));
    assert(b.subrange(19, 19 + n as int) =~= ns);
    assert(b.subrange(19 + n as int, 27 + n as int) =~= be_bytes(m.sequence as nat, 8));
}

/// Law: a CANCEL or HEARTBEAT message is read back as it was written.
pub proof fn law_number_round_trip(message_type: u8, n: u64, incomplete: ProtoError, rest: Seq<u8>)
    ensures
        parse_number(number_message(message_type, n) + rest, incomplete) == (
            Ok::<u64, ProtoError>(n),
            number_message(message_type, n).len(),
        ),
{
    lemma_capacities();
    law_number_comes_back(n as nat, 8);
    let b = number_message(message_type, n) + rest;
    assert(b.subrange(1, 9) =~= be_bytes(n as nat, 8));
}

/// Law: a TERMINATE message is read back as it was written.
pub proof fn law_terminate_round_trip(reason: u8, rest: Seq<u8>)
    ensures
        parse_terminate(terminate_message(reason) + rest) == (
            Ok::<u8, ProtoError>(reason),
            terminate_message(reason).len(),
        ),
{
}

/// Law: a SUBSCRIBE_OK message is read back as it was written.
pub proof fn law_subscribe_ok_round_trip(stream_id: Seq<u8>, rest: Seq<u8>)
    requires
        stream_id.len() == 16,
    ensures
        parse_subscribe_ok(subscribe_ok_message(stream_id) + rest) == (
            Ok::<Seq<u8>, ProtoError>(stream_id),
            subscribe_ok_message(stream_id).len(),
        ),
{
    let b = subscribe_ok_message(stream_id) + rest;
    assert(b.subrange(1, 17) =~= stream_id);
}

/// Law: where things stand in a SUBSCRIBE message: the byte 1, the length of the namespace as far
/// as two bytes can count, the identifier, the namespace, the number to start from, the group, the
/// priority.
pub proof fn law_subscribe_layout(m: SubscribeView)
    requires
        m.stream_id.len() == 16,
    ensures
        ({
            let b = subscribe_message(m);
            let n = encode_utf8(m.namespace).len() as int;
            &&& b.len() == 32 + n
            &&& b[0] == 1
            &&& be_value(b.subrange(1, 3)) == n % 0x1_0000
            &&& b.subrange(3, 19) == m.stream_id
            &&& b.subrange(19, 19 + n) == encode_utf8(m.namespace)
            &&& be_value(b.subrange(19 + n, 27 + n)) == m.start_sequence
            &&& be_value(b.subrange(27 + n, 31 + n)) == m.group_id
            &&& b[31 + n] == m.priority
        }),
{
    lemma_capacities();
    let b = subscribe_message(m);
    let ns = encode_utf8(m.namespace);
    let n = ns.len() as int;
    lemma_be_bytes_truncate(ns.len(), 2);
    law_number_comes_back(ns.len() % 0x1_0000, 2);
    law_number_comes_back(m.start_sequence as nat, 8);
    law_number_comes_back(m.group_id as nat, 4);
    assert(b.subrange(1, 3) =~= be_bytes(ns.len(), 2));
    assert(b.subrange(3, 19) =~= m.stream_id);
    assert(b.subrange(19, 19 + n) =~= ns);
    assert(b.subrange(19 + n, 27 + n) =~= be_bytes(m.start_sequence as nat, 8));
    assert(b.subrange(27 + n, 31 + n) =~= be_bytes(m.group_id as nat, 4));
}

/// Law: where things stand in an UNSUBSCRIBE message: the byte 2, the identifier, the length of
/// the namespace as far as two bytes can count, the namespace.
pub proof fn law_unsubscribe_layout(m: StreamView)
    requires
        m.stream_id.len() == 16,
    ensures
        ({
            let b = unsubscribe_message(m);
            let n = encode_utf8(m.namespace).len() as int;
            &&& b.len() == 19 + n
            &&& b[0] == 2
            &&& b.subrange(1, 17) == m.stream_id
            &&& be_value(b.subrange(17, 19)) == n % 0x1_0000
            &&& b.subrange(19, 19 + n) == encode_utf8(m.namespace)
        }),
{
    lemma_capacities();
    let b = unsubscribe_message(m);
    let ns = encode_utf8(m.namespace);
    let n = ns.len() as int;
    lemma_be_bytes_truncate(ns.len(), 2);
    law_number_comes_back(ns.len() % 0x1_0000, 2);
    assert(b.subrange(1, 17) =~= m.stream_id);
    assert(b.subrange(17, 19) =~= be_bytes(ns.len(), 2));
    assert(b.subrange(19, 19 + n) =~= ns);
}

/// Law: where things stand in a REQUEST message: the byte 4, the identifier, the length of the
/// namespace as far as two bytes can count, the namespace, the number asked for.
pub proof fn law_request_layout(m: RequestView)
    requires
        m.stream_id.len() == 16,
    ensures
        ({
            let b = request_message(m);
            let n = encode_utf8(m.namespace).len() as int;
            &&& b.len() == 27 + n
            &&& b[0] == 4
            &&& b.subrange(1, 17) == m.stream_id
            &&& be_value(b.subrange(17, 19)) == n % 0x1_0000
            &&& b.subrange(19, 19 + n) == encode_utf8(m.namespace)
            &&& be_value(b.subrange(19 + n, 27 + n)) == m.sequence
        }),
{
    lemma_capacities();
    let b = request_message(m);
    let ns = encode_utf8(m.namespace);
    let n = ns.len() as int;
    lemma_be_bytes_truncate(ns.len(), 2);
    law_number_comes_back(ns.len() % 0x1_0000, 2);
    law_number_comes_back(m.sequence as nat, 8);
    assert(b.subrange(1, 17) =~= m.stream_id);
    assert(b.subrange(17, 19) =~= be_bytes(ns.len(), 2));
    assert(b.subrange(19, 19 + n) =~= ns);
    assert(b.subrange(19 + n, 27 + n) =~= be_bytes(m.sequence as nat, 8));
}

/// Law: the messages of fixed length. A number stands in eight bytes behind the type byte, a
/// reason in one behind the byte 5, an identifier in sixteen behind the byte 8.
pub proof fn law_short_messages_layout(message_type: u8, n: u64, reason: u8, stream_id: Seq<u8>)
    requires
        stream_id.len() == 16,
    ensures
        number_message(message_type, n).len() == 9,
        number_message(message_type, n)[0] == message_type,
        be_value(number_message(message_type, n).subrange(1, 9)) == n,
        terminate_message(reason) == seq![5u8, reason],
        subscribe_ok_message(stream_id) == seq![8u8] + stream_id,
{
    lemma_capacities();
    law_number_comes_back(n as nat, 8);
    assert(number_message(message_type, n).subrange(1, 9) =~= be_bytes(n as nat, 8));
}

/// Law: when a message cannot be read, by what is missing, and how many bytes that uses up. A
/// message that is all there is refused only where its namespace is no text.
pub proof fn law_when_messages_are_refused(b: Seq<u8>, incomplete: ProtoError)
    ensures
        ({
            let n = be_value(b.subrange(1, 3));
            &&& b.len() < 3 ==> parse_subscribe(b) == (
                Err::<SubscribeView, ProtoError>(ProtoError::IncompleteSubscribeHeader),
                0nat,
            )
            &&& 3 <= b.len() < 32 + n ==> parse_subscribe(b) == (
                Err::<SubscribeView, ProtoError>(ProtoError::IncompleteSubscribeBody),
                3nat,
            )
            &&& b.len() >= 32 + n ==> (parse_subscribe(b).0 is Ok <==> valid_utf8(
                b.subrange(19, 19 + n as int),
            ))
            &&& b.len() >= 32 + n && parse_subscribe(b).0 is Err ==> parse_subscribe(b) == (
                Err::<SubscribeView, ProtoError>(
                    ProtoError::InvalidUtf8(utf8_fault(b.subrange(19, 19 + n as int))),
                ),
                19nat,
            )
        }),
        ({
            let n = be_value(b.subrange(17, 19));
            let text = b.subrange(19, 19 + n as int);
            &&& b.len() < 19 ==> parse_unsubscribe(b) == (
                Err::<StreamView, ProtoError>(ProtoError::IncompleteUnsubscribe),
                0nat,
            )
            &&& 19 <= b.len() < 19 + n ==> parse_unsubscribe(b) == (
                Err::<StreamView, ProtoError>(ProtoError::IncompleteNamespace),
                19nat,
            )
            &&& 19 <= b.len() && b.len() >= 19 + n ==> (parse_unsubscribe(b).0 is Ok <==> valid_utf8(
                text,
            ))
            &&& 19 <= b.len() && b.len() >= 19 + n && parse_unsubscribe(b).0 is Err
                ==> parse_unsubscribe(b) == (
                Err::<StreamView, ProtoError>(ProtoError::InvalidUtf8(utf8_fault(text))),
                19nat,
            )
            &&& b.len() < 27 ==> parse_request(b) == (
                Err::<RequestView, ProtoError>(ProtoError::IncompleteRequest),
                0nat,
            )
            &&& 27 <= b.len() < 27 + n ==> parse_request(b) == (
                Err::<RequestView, ProtoError>(ProtoError::IncompleteNamespaceOrSequence),
                19nat,
            )
            &&& b.len() >= 27 + n ==> (parse_request(b).0 is Ok <==> valid_utf8(text))
            &&& b.len() >= 27 + n && parse_request(b).0 is Err ==> parse_request(b) == (
                Err::<RequestView, ProtoError>(ProtoError::InvalidUtf8(utf8_fault(text))),
                19nat,
            )
        }),
        parse_number(b, incomplete).0 is Err <==> b.len() < 9,
        b.len() < 9 ==> parse_number(b, incomplete) == (Err::<u64, ProtoError>(incomplete), 0nat),
        b.len() < 2 <==> parse_terminate(b).0 is Err,
        b.len() < 2 ==> parse_terminate(b) == (
            Err::<u8, ProtoError>(ProtoError::IncompleteTerminate),
            0nat,
        ),
        b.len() < 17 <==> parse_subscribe_ok(b).0 is Err,
        b.len() < 17 ==> parse_subscribe_ok(b) == (
            Err::<Seq<u8>, ProtoError>(ProtoError::IncompleteSubscribeOk),
            0nat,
        ),
{
}

/// Law: where things are read in a message that is all there, whatever its type byte is.
pub proof fn law_messages_are_read_by_place(b: Seq<u8>, incomplete: ProtoError)
    ensures
        parse_subscribe(b).0 matches Ok(m) ==> {
            let n = be_value(b.subrange(1, 3)) as int;
            &&& parse_subscribe(b).1 == 32 + n
            &&& m.stream_id == b.subrange(3, 19)
            &&& m.namespace == decode_utf8(b.subrange(19, 19 + n))
            &&& m.start_sequence == be_value(b.subrange(19 + n, 27 + n)) as u64
            &&& m.group_id == be_value(b.subrange(27 + n, 31 + n)) as u32
            &&& m.priority == b[31 + n]
        },
        parse_unsubscribe(b).0 matches Ok(m) ==> {
            let n = be_value(b.subrange(17, 19)) as int;
            &&& parse_unsubscribe(b).1 == 19 + n
            &&& m.stream_id == b.subrange(1, 17)
            &&& m.namespace == decode_utf8(b.subrange(19, 19 + n))
        },
        parse_request(b).0 matches Ok(m) ==> {
            let n = be_value(b.subrange(17, 19)) as int;
            &&& parse_request(b).1 == 27 + n
            &&& m.stream_id == b.subrange(1, 17)
            &&& m.namespace == decode_utf8(b.subrange(19, 19 + n))
            &&& m.sequence == be_value(b.subrange(19 + n, 27 + n)) as u64
        },
        parse_number(b, incomplete).0 matches Ok(n) ==> n == be_value(b.subrange(1, 9)) as u64
            && parse_number(b, incomplete).1 == 9,
        parse_terminate(b).0 matches Ok(reason) ==> reason == b[1] && parse_terminate(b).1 == 2,
        parse_subscribe_ok(b).0 matches Ok(id) ==> id == b.subrange(1, 17) && parse_subscribe_ok(
            b,
        ).1 == 17,
{
}

/// Law: what a reader returns is what was read, in every part.
pub proof fn law_returned_as_read(
    s: Result<(StreamId, String, u64, u32, u8), ProtoError>,
    sp: Result<SubscribeView, ProtoError>,
    u: Result<(StreamId, String), ProtoError>,
    up: Result<StreamView, ProtoError>,
    q: Result<(StreamId, String, u64), ProtoError>,
    qp: Result<RequestView, ProtoError>,
)
    ensures
        is_subscribe(s, sp) ==> match s {
            Ok(t) => sp matches Ok(m) && t.0.bytes@ == m.stream_id && t.1@ == m.namespace && t.2
                == m.start_sequence && t.3 == m.group_id && t.4 == m.priority,
            Err(e) => sp == Err::<SubscribeView, ProtoError>(e),
        },
        is_unsubscribe(u, up) ==> match u {
            Ok(t) => up matches Ok(m) && t.0.bytes@ == m.stream_id && t.1@ == m.namespace,
            Err(e) => up == Err::<StreamView, ProtoError>(e),
        },
        is_request(q, qp) ==> match q {
            Ok(t) => qp matches Ok(m) && t.0.bytes@ == m.stream_id && t.1@ == m.namespace && t.2
                == m.sequence,
            Err(e) => qp == Err::<RequestView, ProtoError>(e),
        },
{
}

} // verus!
