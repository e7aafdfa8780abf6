//! What a node does with the messages on a control stream.
//!
//! A message is taken from the buffer once all its bytes are there. Before that nothing of it is
//! used up, so that it does not matter in which pieces the bytes of a control stream arrive. A
//! message whose namespace is no text is passed over, with the bytes that reading it used up; a
//! SUBSCRIBE of that kind ends the control stream.

use crate::buffer::{advance, buffer_bytes, buffer_len, contents};
use crate::ids::StreamId;
use crate::proto::control::{
    deserialize_cancel, deserialize_heartbeat, deserialize_request, deserialize_subscribe,
    deserialize_subscribe_ok, deserialize_terminate, deserialize_unsubscribe, number_message,
    parse_number, parse_request, parse_subscribe, parse_subscribe_ok, parse_terminate,
    parse_unsubscribe,
    request_message, serialize_heartbeat, serialize_subscribe_ok, subscribe_message,
    subscribe_ok_message, terminate_message, unsubscribe_message, RequestView, StreamView,
    SubscribeView,
};
use crate::proto::{
    ProtoError, TYPE_CANCEL, TYPE_HEARTBEAT, TYPE_REQUEST, TYPE_SUBSCRIBE, TYPE_SUBSCRIBE_OK,
    TYPE_TERMINATE, TYPE_UNSUBSCRIBE,
};
use crate::subscriber::control::{law_reply_confirms_once, scan, subscribe_reply};
use crate::subscriber::frame::concat;
use crate::wire::{
    be_bytes, be_value, group_reading, law_number_comes_back, lemma_capacities, push_be, read_be,
};
use bytes::BytesMut;
use vstd::prelude::*;
use vstd::utf8::encode_utf8;

verus! {

broadcast use group_reading;

/// A message on a control stream.
#[derive(Debug)]
pub enum ControlMessage {
    Subscribe {
        stream_id: StreamId,
        namespace: String,
        start_sequence: u64,
        group_id: u32,
        priority: u8,
    },
    SubscribeOk { stream_id: StreamId },
    Terminate { reason: u8 },
    Heartbeat { timestamp: u64 },
    Request { stream_id: StreamId, namespace: String, sequence: u64 },
    Unsubscribe { stream_id: StreamId, namespace: String },
    Cancel { sequence: u64 },
}

/// What a message says, as mathematical values.
#[verifier::ext_equal]
pub enum ControlMessageView {
    Subscribe(SubscribeView),
    SubscribeOk(Seq<u8>),
    Terminate(u8),
    Heartbeat(u64),
    Request(RequestView),
    Unsubscribe(StreamView),
    Cancel(u64),
}

impl View for ControlMessage {
    type V = ControlMessageView;

    open spec fn view(&self) -> ControlMessageView {
        match self {
            ControlMessage::Subscribe {
                stream_id,
                namespace,
                start_sequence,
                group_id,
                priority,
            } => ControlMessageView::Subscribe(
                SubscribeView {
                    stream_id: stream_id@,
                    namespace: namespace@,
                    start_sequence: *start_sequence,
                    group_id: *group_id,
                    priority: *priority,
                },
            ),
            ControlMessage::SubscribeOk { stream_id } => ControlMessageView::SubscribeOk(
                stream_id@,
            ),
            ControlMessage::Terminate { reason } => ControlMessageView::Terminate(*reason),
            ControlMessage::Heartbeat { timestamp } => ControlMessageView::Heartbeat(*timestamp),
            ControlMessage::Request { stream_id, namespace, sequence } => {
                ControlMessageView::Request(
                    RequestView {
                        stream_id: stream_id@,
                        namespace: namespace@,
                        sequence: *sequence,
                    },
                )
            },
            ControlMessage::Unsubscribe { stream_id, namespace } => {
                ControlMessageView::Unsubscribe(
                    StreamView { stream_id: stream_id@, namespace: namespace@ },
                )
            },
            ControlMessage::Cancel { sequence } => ControlMessageView::Cancel(*sequence),
        }
    }
}

/// What comes of looking at the head of a control buffer.
#[derive(Debug)]
pub enum ControlStep {
    /// More bytes are needed.
    Wait,
    /// A byte that starts no message was passed over.
    Skipped(u8),
    /// A message was taken out.
    Message(ControlMessage),
    /// A message was damaged, and was passed over.
    Ignored(ProtoError),
    /// A SUBSCRIBE message was damaged, and the control stream is done for.
    Failed(ProtoError),
}

/// The same, as mathematical values.
#[verifier::ext_equal]
pub enum ControlStepView {
    Wait,
    Skipped(u8),
    Message(ControlMessageView),
    Ignored(ProtoError),
    Failed(ProtoError),
}

impl View for ControlStep {
    type V = ControlStepView;

    open spec fn view(&self) -> ControlStepView {
        match self {
            ControlStep::Wait => ControlStepView::Wait,
            ControlStep::Skipped(b) => ControlStepView::Skipped(*b),
            ControlStep::Message(m) => ControlStepView::Message(m@),
            ControlStep::Ignored(e) => ControlStepView::Ignored(*e),
            ControlStep::Failed(e) => ControlStepView::Failed(*e),
        }
    }
}

/// Whether a byte starts a message.
pub open spec fn starts_message(b: u8) -> bool {
    ||| b == TYPE_SUBSCRIBE
    ||| b == TYPE_SUBSCRIBE_OK
    ||| b == TYPE_TERMINATE
    ||| b == TYPE_HEARTBEAT
    ||| b == TYPE_REQUEST
    ||| b == TYPE_UNSUBSCRIBE
    ||| b == TYPE_CANCEL
}

/// Whether the message at the head of `b` is all there.
pub open spec fn is_complete(b: Seq<u8>) -> bool {
    if b[0] == TYPE_SUBSCRIBE {
        b.len() >= 3 && b.len() >= 32 + be_value(b.subrange(1, 3))
    } else if b[0] == TYPE_SUBSCRIBE_OK {
        b.len() >= 17
    } else if b[0] == TYPE_TERMINATE {
        b.len() >= 2
    } else if b[0] == TYPE_HEARTBEAT {
        b.len() >= 9
    } else if b[0] == TYPE_REQUEST {
        b.len() >= 19 && b.len() >= 27 + be_value(b.subrange(17, 19))
    } else if b[0] == TYPE_UNSUBSCRIBE {
        b.len() >= 19 && b.len() >= 19 + be_value(b.subrange(17, 19))
    } else {
        b.len() >= 9
    }
}

/// What the head of `b` comes to, and how many bytes that uses up.
pub open spec fn control_step(b: Seq<u8>) -> (ControlStepView, nat) {
    if b.len() == 0 {
        (ControlStepView::Wait, 0)
    } else if !starts_message(b[0]) {
        (ControlStepView::Skipped(b[0]), 1)
    } else if !is_complete(b) {
        (ControlStepView::Wait, 0)
    } else if b[0] == TYPE_SUBSCRIBE {
        match parse_subscribe(b) {
            (Ok(m), used) => (ControlStepView::Message(ControlMessageView::Subscribe(m)), used),
            (Err(e), used) => (ControlStepView::Failed(e), used),
        }
    } else if b[0] == TYPE_SUBSCRIBE_OK {
        match parse_subscribe_ok(b) {
            (Ok(m), used) => (ControlStepView::Message(ControlMessageView::SubscribeOk(m)), used),
            (Err(e), used) => (ControlStepView::Ignored(e), used),
        }
    } else if b[0] == TYPE_TERMINATE {
        match parse_terminate(b) {
            (Ok(m), used) => (ControlStepView::Message(ControlMessageView::Terminate(m)), used),
            (Err(e), used) => (ControlStepView::Ignored(e), used),
        }
    } else if b[0] == TYPE_HEARTBEAT {
        match parse_number(b, ProtoError::IncompleteHeartbeat) {
            (Ok(m), used) => (ControlStepView::Message(ControlMessageView::Heartbeat(m)), used),
            (Err(e), used) => (ControlStepView::Ignored(e), used),
        }
    } else if b[0] == TYPE_REQUEST {
        match parse_request(b) {
            (Ok(m), used) => (ControlStepView::Message(ControlMessageView::Request(m)), used),
            (Err(e), used) => (ControlStepView::Ignored(e), used),
        }
    } else if b[0] == TYPE_UNSUBSCRIBE {
        match parse_unsubscribe(b) {
            (Ok(m), used) => (ControlStepView::Message(ControlMessageView::Unsubscribe(m)), used),
            (Err(e), used) => (ControlStepView::Ignored(e), used),
        }
    } else {
        match parse_number(b, ProtoError::IncompleteCancel) {
            (Ok(m), used) => (ControlStepView::Message(ControlMessageView::Cancel(m)), used),
            (Err(e), used) => (ControlStepView::Ignored(e), used),
        }
    }
}

/// Whether the message at the head of the buffer is all there.
fn message_is_complete(bytes: &[u8]) -> (r: bool)
    requires
        bytes@.len() >= 1,
        starts_message(bytes@[0]),
    ensures
        r == is_complete(bytes@),
{
    proof {
        lemma_capacities();
    }
    let len = bytes.len();
    match bytes[0] {
        TYPE_SUBSCRIBE => {
            if len < 3 {
                return false;
            }
            let ns_len = read_be(bytes, 1, 3);
            len as u64 >= 3 + ns_len + 29
        },
        TYPE_TERMINATE => len >= 2,
        TYPE_HEARTBEAT => len >= 9,
        TYPE_REQUEST => len >= 19 && len as u64 >= 27 + read_be(bytes, 17, 19),
        TYPE_UNSUBSCRIBE => len >= 19 && len as u64 >= 19 + read_be(bytes, 17, 19),
        TYPE_CANCEL => len >= 9,
        _ => len >= 17,
    }
}

/// Looks at the head of a control buffer once.
pub fn next_control_message(buffer: &mut BytesMut) -> (step: ControlStep)
    ensures
        step@ == control_step(contents(*old(buffer))).0,
        contents(*final(buffer)) == contents(*old(buffer)).skip(
            control_step(contents(*old(buffer))).1 as int,
        ),
{
    let ghost b = contents(*buffer);
    proof {
        assert(b.skip(0) =~= b);
    }
    if buffer_len(buffer) < 1 {
        return ControlStep::Wait;
    }
    let msg_type = buffer_bytes(buffer)[0];
    match msg_type {
        TYPE_SUBSCRIBE | TYPE_SUBSCRIBE_OK | TYPE_TERMINATE | TYPE_HEARTBEAT | TYPE_REQUEST
        | TYPE_UNSUBSCRIBE | TYPE_CANCEL => {},
        _ => {
            advance(buffer, 1);
            return ControlStep::Skipped(msg_type);
        },
    }
    if !message_is_complete(buffer_bytes(buffer)) {
        return ControlStep::Wait;
    }
    match msg_type {
        TYPE_SUBSCRIBE => match deserialize_subscribe(buffer) {
            Ok((stream_id, namespace, start_sequence, group_id, priority)) => ControlStep::Message(
                ControlMessage::Subscribe {
                    stream_id,
                    namespace,
                    start_sequence,
                    group_id,
                    priority,
                },
            ),
            Err(e) => ControlStep::Failed(e),
        },
        TYPE_SUBSCRIBE_OK => match deserialize_subscribe_ok(buffer) {
            Ok(stream_id) => ControlStep::Message(ControlMessage::SubscribeOk { stream_id }),
            Err(e) => ControlStep::Ignored(e),
        },
        TYPE_TERMINATE => match deserialize_terminate(buffer) {
            Ok(reason) => ControlStep::Message(ControlMessage::Terminate { reason }),
            Err(e) => ControlStep::Ignored(e),
        },
        TYPE_HEARTBEAT => match deserialize_heartbeat(buffer) {
            Ok(timestamp) => ControlStep::Message(ControlMessage::Heartbeat { timestamp }),
            Err(e) => ControlStep::Ignored(e),
        },
        TYPE_REQUEST => match deserialize_request(buffer) {
            Ok((stream_id, namespace, sequence)) => ControlStep::Message(
                ControlMessage::Request { stream_id, namespace, sequence },
            ),
            Err(e) => ControlStep::Ignored(e),
        },
        TYPE_UNSUBSCRIBE => match deserialize_unsubscribe(buffer) {
            Ok((stream_id, namespace)) => ControlStep::Message(
                ControlMessage::Unsubscribe { stream_id, namespace },
            ),
            Err(e) => ControlStep::Ignored(e),
        },
        _ => match deserialize_cancel(buffer) {
            Ok(sequence) => ControlStep::Message(ControlMessage::Cancel { sequence }),
            Err(e) => ControlStep::Ignored(e),
        },
    }
}

/// What a message asks of the node.
#[derive(Debug)]
pub enum ControlAction {
    /// Subscribe the sender to the stream, then send the reply.
    Subscribe { stream_id: StreamId, namespace: String, group_id: u32, reply: Vec<u8> },
    /// Tell whoever waits for the confirmation of the sender.
    Confirm,
    /// Send the reply.
    Reply(BytesMut),
    /// Ask the stream's actor to send the object to the sender again.
    Retransmit { stream_id: StreamId, namespace: String, sequence: u64 },
    /// Nothing.
    Nothing,
}

/// Whether the action is the right one for a message.
pub open spec fn is_response(m: ControlMessageView, action: ControlAction) -> bool {
    match m {
        ControlMessageView::Subscribe(s) => {
            &&& action matches ControlAction::Subscribe { stream_id, namespace, group_id, reply }
            &&& stream_id@ == s.stream_id
            &&& namespace@ == s.namespace
            &&& group_id == s.group_id
            &&& reply@ == subscribe_reply(s.stream_id)
        },
        ControlMessageView::SubscribeOk(_) => action is Confirm,
        ControlMessageView::Heartbeat(timestamp) => action matches ControlAction::Reply(reply)
            && contents(reply) == number_message(TYPE_HEARTBEAT, timestamp),
        ControlMessageView::Request(r) => {
            &&& action matches ControlAction::Retransmit { stream_id, namespace, sequence }
            &&& stream_id@ == r.stream_id
            &&& namespace@ == r.namespace
            &&& sequence == r.sequence
        },
        ControlMessageView::Terminate(_) => action is Nothing,
        ControlMessageView::Unsubscribe(_) => action is Nothing,
        ControlMessageView::Cancel(_) => action is Nothing,
    }
}

/// What a message asks of the node.
pub fn respond(message: ControlMessage) -> (action: ControlAction)
    ensures
        is_response(message@, action),
{
    match message {
        ControlMessage::Subscribe { stream_id, namespace, group_id, .. } => {
            let response = serialize_subscribe_ok(stream_id);
            let mut reply: Vec<u8> = Vec::new();
            push_be(&mut reply, buffer_len(&response) as u64, 4);
            reply.extend_from_slice(buffer_bytes(&response));
            assert(reply@ =~= subscribe_reply(stream_id@));
            ControlAction::Subscribe { stream_id, namespace, group_id, reply }
        },
        ControlMessage::SubscribeOk { .. } => ControlAction::Confirm,
        ControlMessage::Heartbeat { timestamp } => ControlAction::Reply(
            serialize_heartbeat(timestamp),
        ),
        ControlMessage::Request { stream_id, namespace, sequence } => ControlAction::Retransmit {
            stream_id,
            namespace,
            sequence,
        },
        ControlMessage::Terminate { .. } => ControlAction::Nothing,
        ControlMessage::Unsubscribe { .. } => ControlAction::Nothing,
        ControlMessage::Cancel { .. } => ControlAction::Nothing,
    }
}

/// The bytes of a message.
pub open spec fn message_bytes(m: ControlMessageView) -> Seq<u8> {
    match m {
        ControlMessageView::Subscribe(s) => subscribe_message(s),
        ControlMessageView::SubscribeOk(id) => subscribe_ok_message(id),
        ControlMessageView::Terminate(reason) => terminate_message(reason),
        ControlMessageView::Heartbeat(timestamp) => number_message(TYPE_HEARTBEAT, timestamp),
        ControlMessageView::Request(r) => request_message(r),
        ControlMessageView::Unsubscribe(u) => unsubscribe_message(u),
        ControlMessageView::Cancel(sequence) => number_message(TYPE_CANCEL, sequence),
    }
}

/// Whether a message can be written: the identifier has its sixteen bytes, and the length of
/// the namespace fits its two.
pub open spec fn can_be_written(m: ControlMessageView) -> bool {
    match m {
        ControlMessageView::Subscribe(s) => s.stream_id.len() == 16 && encode_utf8(
            s.namespace,
        ).len() <= u16::MAX,
        ControlMessageView::SubscribeOk(id) => id.len() == 16,
        ControlMessageView::Request(r) => r.stream_id.len() == 16 && encode_utf8(
            r.namespace,
        ).len() <= u16::MAX,
        ControlMessageView::Unsubscribe(u) => u.stream_id.len() == 16 && encode_utf8(
            u.namespace,
        ).len() <= u16::MAX,
        _ => true,
    }
}

/// Law: a message that was written is taken off the control stream and understood, whatever
/// follows it, and nothing of what follows is used up.
pub proof fn law_control_messages_are_understood(m: ControlMessageView, rest: Seq<u8>)
    requires
        can_be_written(m),
    ensures
        control_step(message_bytes(m) + rest) == (
            ControlStepView::Message(m),
            message_bytes(m).len(),
        ),
{
    lemma_capacities();
    let b = message_bytes(m) + rest;
    match m {
        ControlMessageView::Subscribe(s) => {
            crate::proto::control::law_subscribe_round_trip(s, rest);
            let n = encode_utf8(s.namespace).len();
            law_number_comes_back(n, 2);
            assert(b.subrange(1, 3) =~= be_bytes(n, 2));
        },
        ControlMessageView::SubscribeOk(id) => {
            crate::proto::control::law_subscribe_ok_round_trip(id, rest);
        },
        ControlMessageView::Terminate(reason) => {
            crate::proto::control::law_terminate_round_trip(reason, rest);
        },
        ControlMessageView::Heartbeat(timestamp) => {
            crate::proto::control::law_number_round_trip(
                TYPE_HEARTBEAT,
                timestamp,
                ProtoError::IncompleteHeartbeat,
                rest,
            );
        },
        ControlMessageView::Request(r) => {
            crate::proto::control::law_request_round_trip(r, rest);
            let n = encode_utf8(r.namespace).len();
            law_number_comes_back(n, 2);
            assert(b.subrange(17, 19) =~= be_bytes(n, 2));
        },
        ControlMessageView::Unsubscribe(u) => {
            crate::proto::control::law_unsubscribe_round_trip(u, rest);
            let n = encode_utf8(u.namespace).len();
            law_number_comes_back(n, 2);
            assert(b.subrange(17, 19) =~= be_bytes(n, 2));
        },
        ControlMessageView::Cancel(sequence) => {
            crate::proto::control::law_number_round_trip(
                TYPE_CANCEL,
                sequence,
                ProtoError::IncompleteCancel,
                rest,
            );
        },
    }
}

/// Law: whoever asks for a stream is confirmed. The request, as it was written, is understood
/// as a request for that stream, and the reply to it is read as exactly one confirmation, with
/// nothing left over.
pub proof fn law_request_is_confirmed(s: SubscribeView, rest: Seq<u8>, action: ControlAction)
    requires
        can_be_written(ControlMessageView::Subscribe(s)),
        is_response(ControlMessageView::Subscribe(s), action),
    ensures
        control_step(subscribe_message(s) + rest) == (
            ControlStepView::Message(ControlMessageView::Subscribe(s)),
            subscribe_message(s).len(),
        ),
        action matches ControlAction::Subscribe { reply, .. } && scan(reply@) == (
            1nat,
            Seq::<u8>::empty(),
        ),
{
    law_control_messages_are_understood(ControlMessageView::Subscribe(s), rest);
    law_reply_confirms_once(s.stream_id);
}

/// Law: every step makes the buffer shorter but the one that waits for more bytes, so that
/// looking at a buffer over and over until it comes up ends.
pub proof fn law_messages_use_up_bytes(b: Seq<u8>)
    ensures
        control_step(b).1 <= b.len(),
        control_step(b).0 is Message ==> control_step(b).1 > 0,
        control_step(b).0 is Skipped ==> control_step(b).1 > 0,
        control_step(b).0 is Ignored ==> control_step(b).1 > 0,
        control_step(b).0 is Failed ==> control_step(b).1 > 0,
        control_step(b).0 is Wait ==> control_step(b).1 == 0,
{
}

/// Law: a message that is all there is refused for one reason only, that its namespace is no
/// text. Only a SUBSCRIBE ends the control stream by it.
pub proof fn law_only_bad_text_is_refused(b: Seq<u8>)
    ensures
        control_step(b).0 matches ControlStepView::Ignored(e) ==> e is InvalidUtf8 && (b[0]
            == TYPE_REQUEST || b[0] == TYPE_UNSUBSCRIBE),
        control_step(b).0 matches ControlStepView::Failed(e) ==> e is InvalidUtf8 && b[0]
            == TYPE_SUBSCRIBE,
{
}

/// What some steps come to, as mathematical values.
pub open spec fn step_views(steps: Seq<ControlStep>) -> Seq<ControlStepView> {
    steps.map_values(|step: ControlStep| step@)
}

/// Whether the last of some steps was the end of the control stream.
pub open spec fn has_failed(steps: Seq<ControlStepView>) -> bool {
    steps.len() > 0 && steps.last() is Failed
}

/// The steps that can be made before more bytes are needed or the control stream is done for,
/// and the bytes that are left.
pub open spec fn control_run(b: Seq<u8>) -> (Seq<ControlStepView>, Seq<u8>)
    decreases b.len(),
{
    match control_step(b) {
        (ControlStepView::Wait, _) => (Seq::empty(), b),
        (ControlStepView::Failed(e), used) => (
            seq![ControlStepView::Failed(e)],
            b.skip(used as int),
        ),
        (step, used) => {
            let (steps, rest) = control_run(b.skip(used as int));
            (seq![step] + steps, rest)
        },
    }
}

/// Takes every message out of the buffer that is all there. The last step is a failure where the
/// control stream is done for.
pub fn process_control_messages(buffer: &mut BytesMut) -> (steps: Vec<ControlStep>)
    ensures
        step_views(steps@) == control_run(contents(*old(buffer))).0,
        contents(*final(buffer)) == control_run(contents(*old(buffer))).1,
{
    let mut steps: Vec<ControlStep> = Vec::new();
    let ghost goal = control_run(contents(*buffer));
    assert(step_views(steps@) + goal.0 =~= goal.0);
    loop
        invariant
            goal == control_run(contents(*old(buffer))),
            goal.0 == step_views(steps@) + control_run(contents(*buffer)).0,
            goal.1 == control_run(contents(*buffer)).1,
        decreases contents(*buffer).len(),
    {
        let ghost before = steps@;
        let ghost b = contents(*buffer);
        proof {
            law_messages_use_up_bytes(b);
            assert(b.skip(0) =~= b);
        }
        let step = next_control_message(buffer);
        match step {
            ControlStep::Wait => {
                assert(step_views(steps@) + Seq::<ControlStepView>::empty() =~= step_views(steps@));
                return steps;
            },
            ControlStep::Failed(e) => {
                steps.push(ControlStep::Failed(e));
                assert(step_views(steps@) =~= step_views(before) + seq![ControlStepView::Failed(e)]);
                return steps;
            },
            step => {
                steps.push(step);
                proof {
                    let more = control_run(contents(*buffer)).0;
                    assert(step_views(steps@) =~= step_views(before).push(step@));
                    assert(step_views(before) + (seq![step@] + more) =~= step_views(steps@) + more);
                }
            },
        }
    }
}

/// Law: once a step can be made, more bytes behind it change nothing about it.
pub proof fn law_steps_are_stable(b: Seq<u8>, more: Seq<u8>)
    requires
        !(control_step(b).0 is Wait),
    ensures
        control_step(b + more) == control_step(b),
{
    let c = b + more;
    assert(c[0] == b[0]);
    if b[0] == TYPE_SUBSCRIBE {
        let n = be_value(b.subrange(1, 3)) as int;
        assert(c.subrange(1, 3) =~= b.subrange(1, 3));
        assert(c.subrange(3, 19) =~= b.subrange(3, 19));
        assert(c.subrange(19, 19 + n) =~= b.subrange(19, 19 + n));
        assert(c.subrange(19 + n, 27 + n) =~= b.subrange(19 + n, 27 + n));
        assert(c.subrange(27 + n, 31 + n) =~= b.subrange(27 + n, 31 + n));
    } else if b[0] == TYPE_REQUEST || b[0] == TYPE_UNSUBSCRIBE {
        let n = be_value(b.subrange(17, 19)) as int;
        assert(c.subrange(17, 19) =~= b.subrange(17, 19));
        assert(c.subrange(1, 17) =~= b.subrange(1, 17));
        assert(c.subrange(19, 19 + n) =~= b.subrange(19, 19 + n));
        if b[0] == TYPE_REQUEST {
            assert(c.subrange(19 + n, 27 + n) =~= b.subrange(19 + n, 27 + n));
        }
    } else if b[0] == TYPE_SUBSCRIBE_OK {
        assert(c.subrange(1, 17) =~= b.subrange(1, 17));
    } else if b[0] == TYPE_HEARTBEAT || b[0] == TYPE_CANCEL {
        assert(c.subrange(1, 9) =~= b.subrange(1, 9));
    }
}

/// Law: it does not matter whether the bytes of a control stream are there at once or in two
/// parts with a run after each. The same steps are made, and the same bytes are left, unless the
/// stream is done for after the first part: then nothing is added to that.
pub proof fn law_run_in_parts(a: Seq<u8>, b: Seq<u8>)
    ensures
        ({
            let first = control_run(a);
            let second = control_run(first.1 + b);
            if has_failed(first.0) {
                control_run(a + b).0 == first.0
            } else {
                control_run(a + b) == (first.0 + second.0, second.1)
            }
        }),
        !has_failed(control_run(a).0) ==> control_step(control_run(a).1).0 is Wait,
    decreases a.len(),
{
    let (step, used) = control_step(a);
    let first = control_run(a);
    let second = control_run(first.1 + b);
    if step is Wait {
        assert(first.0 + second.0 =~= second.0);
    } else {
        law_steps_are_stable(a, b);
        law_messages_use_up_bytes(a);
        let rest = a.skip(used as int);
        assert((a + b).skip(used as int) =~= rest + b);
        if !(step is Failed) {
            law_run_in_parts(rest, b);
            let more = control_run(rest).0;
            assert(first.0 == seq![step] + more);
            if more.len() > 0 {
                assert(first.0.last() == more.last());
            } else {
                assert(first.0.last() == step);
            }
            assert(first.0 + second.0 =~= seq![step] + (more + second.0));
        }
    }
}

/// The steps that are made where part after part arrives behind the bytes held and a run follows
/// each, and the bytes that are left.
pub open spec fn run_parts(held: Seq<u8>, parts: Seq<Seq<u8>>) -> (Seq<ControlStepView>, Seq<u8>)
    decreases parts.len(),
{
    if parts.len() == 0 {
        (Seq::empty(), held)
    } else {
        let first = control_run(held + parts[0]);
        if has_failed(first.0) {
            first
        } else {
            let more = run_parts(first.1, parts.skip(1));
            (first.0 + more.0, more.1)
        }
    }
}

/// Law: it does not matter in which parts the bytes of a control stream arrive: the steps are
/// those of one run over all bytes, and so is what is left where the stream goes on.
pub proof fn law_parts_do_not_matter(held: Seq<u8>, parts: Seq<Seq<u8>>)
    requires
        control_step(held).0 is Wait,
    ensures
        run_parts(held, parts).0 == control_run(held + concat(parts)).0,
        !has_failed(run_parts(held, parts).0) ==> run_parts(held, parts) == control_run(
            held + concat(parts),
        ),
    decreases parts.len(),
{
    if parts.len() == 0 {
        assert(held + concat(parts) =~= held);
    } else {
        let a = held + parts[0];
        let b = concat(parts.skip(1));
        assert(held + concat(parts) =~= a + b);
        law_run_in_parts(a, b);
        let first = control_run(a);
        if !has_failed(first.0) {
            law_parts_do_not_matter(first.1, parts.skip(1));
            let more = run_parts(first.1, parts.skip(1));
            if more.0.len() > 0 {
                assert((first.0 + more.0).last() == more.0.last());
            }
        }
    }
}

/// The bytes of some messages, one after the other.
pub open spec fn all_messages(messages: Seq<ControlMessageView>) -> Seq<u8>
    decreases messages.len(),
{
    if messages.len() == 0 {
        Seq::empty()
    } else {
        message_bytes(messages[0]) + all_messages(messages.skip(1))
    }
}

/// The steps that take some messages out.
pub open spec fn taken_out(messages: Seq<ControlMessageView>) -> Seq<ControlStepView> {
    messages.map_values(|m: ControlMessageView| ControlStepView::Message(m))
}

proof fn lemma_run_over_messages(messages: Seq<ControlMessageView>)
    requires
        forall|i: int| 0 <= i < messages.len() ==> can_be_written(#[trigger] messages[i]),
    ensures
        control_run(all_messages(messages)) == (taken_out(messages), Seq::<u8>::empty()),
    decreases messages.len(),
{
    if messages.len() == 0 {
        assert(taken_out(messages) =~= Seq::<ControlStepView>::empty());
    } else {
        let m = messages[0];
        let others = messages.skip(1);
        let rest = all_messages(others);
        law_control_messages_are_understood(m, rest);
        assert((message_bytes(m) + rest).skip(message_bytes(m).len() as int) =~= rest);
        lemma_run_over_messages(others);
        assert(taken_out(messages) =~= seq![ControlStepView::Message(m)]
            + taken_out(others));
    }
}

/// Law: whatever messages are written to a control stream, and in whatever parts their bytes
/// arrive, exactly these messages are understood, in order, and nothing is left.
pub proof fn law_any_parts_are_understood(
    messages: Seq<ControlMessageView>,
    parts: Seq<Seq<u8>>,
)
    requires
        forall|i: int| 0 <= i < messages.len() ==> can_be_written(#[trigger] messages[i]),
        concat(parts) == all_messages(messages),
    ensures
        run_parts(Seq::empty(), parts) == (taken_out(messages), Seq::<u8>::empty()),
{
    law_parts_do_not_matter(Seq::empty(), parts);
    assert(Seq::<u8>::empty() + concat(parts) =~= concat(parts));
    lemma_run_over_messages(messages);
    assert(!has_failed(taken_out(messages)));
}

/// Law: the bytes that start a message are 1 to 6 and 8. Any other byte is passed over by itself,
/// and none of these is.
pub proof fn law_which_bytes_start_messages(b: Seq<u8>)
    requires
        b.len() > 0,
    ensures
        control_step(b).0 is Skipped <==> !(1 <= b[0] <= 6 || b[0] == 8),
        control_step(b).0 is Skipped ==> control_step(b) == (ControlStepView::Skipped(b[0]), 1nat),
{
}

/// Law: a message that was written is waited for until its last byte is there, and nothing of it
/// is used up before.
pub proof fn law_part_of_a_message_is_waited_for(m: ControlMessageView, k: int)
    requires
        can_be_written(m),
        0 <= k < message_bytes(m).len(),
    ensures
        control_step(message_bytes(m).take(k)) == (ControlStepView::Wait, 0nat),
{
    lemma_capacities();
    let whole = message_bytes(m);
    let b = whole.take(k);
    match m {
        ControlMessageView::Subscribe(s) => {
            let n = encode_utf8(s.namespace).len();
            law_number_comes_back(n, 2);
            if k >= 3 {
                assert(b.subrange(1, 3) =~= be_bytes(n, 2));
            }
        },
        ControlMessageView::Request(r) => {
            let n = encode_utf8(r.namespace).len();
            law_number_comes_back(n, 2);
            if k >= 19 {
                assert(b.subrange(17, 19) =~= be_bytes(n, 2));
            }
        },
        ControlMessageView::Unsubscribe(u) => {
            let n = encode_utf8(u.namespace).len();
            law_number_comes_back(n, 2);
            if k >= 19 {
                assert(b.subrange(17, 19) =~= be_bytes(n, 2));
            }
        },
        _ => {},
    }
}

/// Law: every message is answered as it says. A subscription is for the stream, the namespace and
/// the group that the message names, and is confirmed with the identifier of that stream. A
/// heartbeat comes back with its time. A request is passed on with the stream, the namespace and
/// the number that it names. A confirmation is passed on. The others ask for nothing.
pub proof fn law_answers_fit_the_message(m: ControlMessageView, action: ControlAction)
    requires
        is_response(m, action),
    ensures
        m matches ControlMessageView::Subscribe(s) ==> {
            &&& action matches ControlAction::Subscribe { stream_id, namespace, group_id, reply }
            &&& stream_id@ == s.stream_id
            &&& namespace@ == s.namespace
            &&& group_id == s.group_id
            &&& s.stream_id.len() == 16 ==> reply@ == seq![0u8, 0u8, 0u8, 17u8, 8u8] + s.stream_id
        },
        m is SubscribeOk ==> action is Confirm,
        m matches ControlMessageView::Heartbeat(t) ==> {
            &&& action matches ControlAction::Reply(reply)
            &&& control_step(contents(reply)) == (ControlStepView::Message(m), 9nat)
            &&& contents(reply).len() == 9
        },
        m matches ControlMessageView::Request(r) ==> {
            &&& action matches ControlAction::Retransmit { stream_id, namespace, sequence }
            &&& stream_id@ == r.stream_id
            &&& namespace@ == r.namespace
            &&& sequence == r.sequence
        },
        m is Terminate || m is Unsubscribe || m is Cancel ==> action is Nothing,
{
    match m {
        ControlMessageView::Subscribe(s) => {
            if s.stream_id.len() == 16 {
                crate::subscriber::control::law_reply_bytes(s.stream_id);
            }
        },
        ControlMessageView::Heartbeat(t) => {
            law_control_messages_are_understood(m, Seq::empty());
            assert(message_bytes(m) + Seq::<u8>::empty() =~= message_bytes(m));
        },
        _ => {},
    }
}

/// Law: what can be written: any message whose identifier has sixteen bytes and whose namespace at
/// most 65535.
pub proof fn law_what_can_be_written(m: ControlMessageView)
    ensures
        m matches ControlMessageView::Subscribe(s) ==> (can_be_written(m) <==> s.stream_id.len()
            == 16 && encode_utf8(s.namespace).len() <= 65_535),
        m matches ControlMessageView::Request(r) ==> (can_be_written(m) <==> r.stream_id.len() == 16
            && encode_utf8(r.namespace).len() <= 65_535),
        m matches ControlMessageView::Unsubscribe(u) ==> (can_be_written(m) <==> u.stream_id.len()
            == 16 && encode_utf8(u.namespace).len() <= 65_535),
        m matches ControlMessageView::SubscribeOk(id) ==> (can_be_written(m) <==> id.len() == 16),
        m is Terminate || m is Heartbeat || m is Cancel ==> can_be_written(m),
{
}

/// Law: a message is shown with all that it says.
pub proof fn law_message_is_shown(m: ControlMessage)
    ensures
        m matches ControlMessage::Subscribe {
            stream_id,
            namespace,
            start_sequence,
            group_id,
            priority,
        } ==> {
            &&& m@ matches ControlMessageView::Subscribe(s)
            &&& s.stream_id == stream_id.bytes@
            &&& s.namespace == namespace@
            &&& s.start_sequence == start_sequence
            &&& s.group_id == group_id
            &&& s.priority == priority
        },
        m matches ControlMessage::SubscribeOk { stream_id } ==> m@
            == ControlMessageView::SubscribeOk(stream_id.bytes@),
        m matches ControlMessage::Terminate { reason } ==> m@ == ControlMessageView::Terminate(
            reason,
        ),
        m matches ControlMessage::Heartbeat { timestamp } ==> m@ == ControlMessageView::Heartbeat(
            timestamp,
        ),
        m matches ControlMessage::Request { stream_id, namespace, sequence } ==> {
            &&& m@ matches ControlMessageView::Request(r)
            &&& r.stream_id == stream_id.bytes@
            &&& r.namespace == namespace@
            &&& r.sequence == sequence
        },
        m matches ControlMessage::Unsubscribe { stream_id, namespace } ==> {
            &&& m@ matches ControlMessageView::Unsubscribe(u)
            &&& u.stream_id == stream_id.bytes@
            &&& u.namespace == namespace@
        },
        m matches ControlMessage::Cancel { sequence } ==> m@ == ControlMessageView::Cancel(
            sequence,
        ),
{
}

/// Law: a step is shown as it is.
pub proof fn law_step_is_shown(s: ControlStep)
    ensures
        s is Wait <==> s@ is Wait,
        s matches ControlStep::Skipped(b) ==> s@ == ControlStepView::Skipped(b),
        s matches ControlStep::Message(m) ==> s@ == ControlStepView::Message(m@),
        s matches ControlStep::Ignored(e) ==> s@ == ControlStepView::Ignored(e),
        s matches ControlStep::Failed(e) ==> s@ == ControlStepView::Failed(e),
{
}

/// Law: a run makes one step after the other and ends where more bytes are needed or the stream is
/// done for.
pub proof fn law_run_step_by_step(b: Seq<u8>)
    ensures
        control_step(b).0 is Wait ==> control_run(b).0.len() == 0 && control_run(b).1 == b,
        control_step(b).0 is Failed ==> control_run(b).0 == seq![control_step(b).0],
        !(control_step(b).0 is Wait) && !(control_step(b).0 is Failed) ==> {
            let rest = b.skip(control_step(b).1 as int);
            &&& control_run(b).0 == seq![control_step(b).0] + control_run(rest).0
            &&& control_run(b).1 == control_run(rest).1
        },
{
}

/// Law: a message is waited for exactly until it has the length that its type and the length of
/// its namespace ask for.
pub proof fn law_how_long_messages_are(b: Seq<u8>)
    requires
        b.len() > 0,
        1 <= b[0] <= 6 || b[0] == 8,
    ensures
        control_step(b).0 is Wait <==> {
            ||| b[0] == 1 && (b.len() < 3 || b.len() < 32 + be_value(b.subrange(1, 3)))
            ||| b[0] == 2 && (b.len() < 19 || b.len() < 19 + be_value(b.subrange(17, 19)))
            ||| b[0] == 3 && b.len() < 9
            ||| b[0] == 4 && (b.len() < 19 || b.len() < 27 + be_value(b.subrange(17, 19)))
            ||| b[0] == 5 && b.len() < 2
            ||| b[0] == 6 && b.len() < 9
            ||| b[0] == 8 && b.len() < 17
        },
{
}

/// Law: what becomes of a message that is all there, by its type. Only one whose namespace is no
/// text is not handed out: a SUBSCRIBE ends the stream by it, the others are passed over.
pub proof fn law_whole_messages_are_handed_out(b: Seq<u8>)
    requires
        b.len() > 0,
        !(control_step(b).0 is Wait),
    ensures
        b[0] == 1 ==> control_step(b).1 == parse_subscribe(b).1 && control_step(b).0 == match parse_subscribe(
            b,
        ).0 {
            Ok(m) => ControlStepView::Message(ControlMessageView::Subscribe(m)),
            Err(e) => ControlStepView::Failed(e),
        },
        b[0] == 2 ==> control_step(b).1 == parse_unsubscribe(b).1 && control_step(b).0
            == match parse_unsubscribe(b).0 {
            Ok(m) => ControlStepView::Message(ControlMessageView::Unsubscribe(m)),
            Err(e) => ControlStepView::Ignored(e),
        },
        b[0] == 3 ==> control_step(b) == (
            ControlStepView::Message(
                ControlMessageView::Cancel(be_value(b.subrange(1, 9)) as u64),
            ),
            9nat,
        ),
        b[0] == 4 ==> control_step(b).1 == parse_request(b).1 && control_step(b).0
            == match parse_request(b).0 {
            Ok(m) => ControlStepView::Message(ControlMessageView::Request(m)),
            Err(e) => ControlStepView::Ignored(e),
        },
        b[0] == 5 ==> control_step(b) == (
            ControlStepView::Message(ControlMessageView::Terminate(b[1])),
            2nat,
        ),
        b[0] == 6 ==> control_step(b) == (
            ControlStepView::Message(
                ControlMessageView::Heartbeat(be_value(b.subrange(1, 9)) as u64),
            ),
            9nat,
        ),
        b[0] == 8 ==> control_step(b) == (
            ControlStepView::Message(ControlMessageView::SubscribeOk(b.subrange(1, 17))),
            17nat,
        ),
{
}

/// Law: some steps are shown one by one, each at its place.
pub proof fn law_steps_are_shown(steps: Seq<ControlStep>, i: int)
    requires
        0 <= i < steps.len(),
    ensures
        step_views(steps).len() == steps.len(),
        step_views(steps)[i] == steps[i]@,
{
}

} // verus!
