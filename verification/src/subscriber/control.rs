//! What a subscriber reads from its control stream: confirmations, and nothing else.

use crate::buffer::{advance, buffer_bytes, buffer_len, contents};
use crate::proto::control::subscribe_ok_message;
use crate::proto::TYPE_SUBSCRIBE_OK;
use crate::wire::{be_bytes, group_reading};
use bytes::BytesMut;
use vstd::prelude::*;

verus! {

broadcast use group_reading;

/// How many confirmations are in `b`, and what is left of `b` until more bytes arrive. Bytes
/// that start no confirmation are passed over.
pub open spec fn scan(b: Seq<u8>) -> (nat, Seq<u8>)
    decreases b.len(),
{
    if b.len() == 0 {
        (0, b)
    } else if b[0] != TYPE_SUBSCRIBE_OK {
        scan(b.skip(1))
    } else if b.len() < 17 {
        (0, b)
    } else {
        (scan(b.skip(17)).0 + 1, scan(b.skip(17)).1)
    }
}

/// Takes every confirmation out of the buffer that is there as a whole, and counts them.
pub fn take_confirmations(buffer: &mut BytesMut) -> (n: usize)
    ensures
        n == scan(contents(*old(buffer))).0,
        contents(*final(buffer)) == scan(contents(*old(buffer))).1,
{
    let mut n: usize = 0;
    let ghost b0 = contents(*buffer);
    let total = buffer_len(buffer);
    while buffer_len(buffer) >= 1
        invariant
            b0 == contents(*old(buffer)),
            scan(b0).0 == n + scan(contents(*buffer)).0,
            scan(b0).1 == scan(contents(*buffer)).1,
            n + contents(*buffer).len() <= total,
        decreases contents(*buffer).len(),
    {
        if buffer_bytes(buffer)[0] == TYPE_SUBSCRIBE_OK {
            if buffer_len(buffer) >= 17 {
                advance(buffer, 17);
                n = n + 1;
            } else {
                return n;
            }
        } else {
            advance(buffer, 1);
        }
    }
    n
}

/// Law: it makes no difference how the bytes arrive. Scanning all of them at once finds as many
/// confirmations as scanning one part and then the rest behind what the first left over.
pub proof fn law_scan_in_parts(a: Seq<u8>, b: Seq<u8>)
    ensures
        scan(a + b).0 == scan(a).0 + scan(scan(a).1 + b).0,
        scan(a + b).1 == scan(scan(a).1 + b).1,
    decreases a.len(),
{
    if a.len() > 0 {
        let whole = a + b;
        assert(whole[0] == a[0]);
        if a[0] != TYPE_SUBSCRIBE_OK {
            assert(whole.skip(1) =~= a.skip(1) + b);
            law_scan_in_parts(a.skip(1), b);
        } else if a.len() >= 17 {
            assert(whole.skip(17) =~= a.skip(17) + b);
            law_scan_in_parts(a.skip(17), b);
        }
    }
}

/// The bytes that answer a SUBSCRIBE message: the length of the confirmation and the
/// confirmation.
pub open spec fn subscribe_reply(stream_id: Seq<u8>) -> Seq<u8> {
    be_bytes(subscribe_ok_message(stream_id).len(), 4) + subscribe_ok_message(stream_id)
}

/// Law: the answer to a SUBSCRIBE message is understood as exactly one confirmation, whatever
/// the stream is called, and nothing is left of it.
pub proof fn law_reply_confirms_once(stream_id: Seq<u8>)
    requires
        stream_id.len() == 16,
    ensures
        scan(subscribe_reply(stream_id)) == (1nat, Seq::<u8>::empty()),
{
    let b = subscribe_reply(stream_id);
    assert(be_bytes(17, 4) =~= seq![0u8, 0u8, 0u8, 17u8]) by {
        reveal_with_fuel(be_bytes, 5);
    }
    assert(b.len() == 21);
    assert(b[0] == 0 && b[1] == 0 && b[2] == 0 && b[3] == 17 && b[4] == TYPE_SUBSCRIBE_OK);
    assert(scan(b) == scan(b.skip(1)));
    assert(b.skip(1).skip(1) =~= b.skip(2));
    assert(scan(b.skip(1)) == scan(b.skip(2)));
    assert(b.skip(2).skip(1) =~= b.skip(3));
    assert(scan(b.skip(2)) == scan(b.skip(3)));
    assert(b.skip(3).skip(1) =~= b.skip(4));
    assert(scan(b.skip(3)) == scan(b.skip(4)));
    assert(b.skip(4).skip(17) =~= Seq::<u8>::empty());
    assert(scan(Seq::<u8>::empty()) == (0nat, Seq::<u8>::empty()));
}

/// Law: what a scan finds, byte by byte. A byte other than 8 is passed over. A byte 8 with sixteen
/// bytes behind it is one confirmation; with fewer it is kept, with all that follows, until more
/// bytes arrive.
pub proof fn law_scan_by_bytes(b: Seq<u8>)
    ensures
        b.len() == 0 ==> scan(b).0 == 0 && scan(b).1.len() == 0,
        b.len() > 0 && b[0] != 8 ==> scan(b) == scan(b.skip(1)),
        b.len() >= 17 && b[0] == 8 ==> scan(b).0 == 1 + scan(b.skip(17)).0 && scan(b).1 == scan(
            b.skip(17),
        ).1,
        0 < b.len() < 17 && b[0] == 8 ==> scan(b) == (0nat, b),
{
}

/// The answers to SUBSCRIBE messages for some streams, one behind the other.
pub open spec fn replies(streams: Seq<Seq<u8>>) -> Seq<u8>
    decreases streams.len(),
{
    if streams.len() == 0 {
        Seq::empty()
    } else {
        subscribe_reply(streams[0]) + replies(streams.skip(1))
    }
}

/// Law: as many confirmations are found as answers were written, and nothing is left of them.
pub proof fn law_every_reply_is_found(streams: Seq<Seq<u8>>)
    requires
        forall|i: int| 0 <= i < streams.len() ==> (#[trigger] streams[i]).len() == 16,
    ensures
        scan(replies(streams)) == (streams.len(), Seq::<u8>::empty()),
    decreases streams.len(),
{
    if streams.len() > 0 {
        let others = streams.skip(1);
        assert forall|i: int| 0 <= i < others.len() implies (#[trigger] others[i]).len() == 16 by {
            assert(others[i] == streams[i + 1]);
        }
        law_every_reply_is_found(others);
        law_reply_confirms_once(streams[0]);
        law_scan_in_parts(subscribe_reply(streams[0]), replies(others));
        assert(Seq::<u8>::empty() + replies(others) =~= replies(others));
    }
}

/// Law: the bytes of an answer: the length 17 in four bytes, the byte 8, and the identifier.
pub proof fn law_reply_bytes(stream_id: Seq<u8>)
    requires
        stream_id.len() == 16,
    ensures
        subscribe_reply(stream_id) == seq![0u8, 0u8, 0u8, 17u8, 8u8] + stream_id,
{
    assert(be_bytes(17, 4) =~= seq![0u8, 0u8, 0u8, 17u8]) by {
        reveal_with_fuel(be_bytes, 5);
    }
    assert(subscribe_reply(stream_id) =~= seq![0u8, 0u8, 0u8, 17u8, 8u8] + stream_id);
}

} // verus!
