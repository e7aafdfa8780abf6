//! Identifiers of streams and of nodes.

use uuid::Uuid;
use vstd::prelude::*;

verus! {

/// The sixteen bytes of a UUID with its first three fields in the other byte order.
pub open spec fn swap_fields(b: Seq<u8>) -> Seq<u8> {
    seq![
        b[3],
        b[2],
        b[1],
        b[0],
        b[5],
        b[4],
        b[7],
        b[6],
        b[8],
        b[9],
        b[10],
        b[11],
        b[12],
        b[13],
        b[14],
        b[15],
    ]
}

/// Law: reordering the fields twice gives the bytes back, so an identifier survives being
/// written in one field order and read in that order again.
pub proof fn law_swap_fields_involution(b: Seq<u8>)
    requires
        b.len() == 16,
    ensures
        swap_fields(swap_fields(b)) == b,
{
    assert(swap_fields(swap_fields(b)) =~= b);
}

/// `Uuid::from_slice`: reads a UUID from exactly sixteen bytes, in the order given.
#[verifier::external_body]
fn uuid_from_slice(bytes: &[u8]) -> (id: Option<[u8; 16]>)
    ensures
        id is Some <==> bytes@.len() == 16,
        id matches Some(b) ==> b@ == bytes@,
{
    match Uuid::from_slice(bytes) {
        Ok(id) => Some(id.into_bytes()),
        Err(_) => None,
    }
}

/// `Uuid::to_bytes_le`: writes a UUID with its first three fields little-endian.
#[verifier::external_body]
fn uuid_to_bytes_le(bytes: [u8; 16]) -> (le: [u8; 16])
    ensures
        le@ == swap_fields(bytes@),
{
    Uuid::from_bytes(bytes).to_bytes_le()
}

/// `Uuid::from_bytes_le`: reads a UUID whose first three fields are little-endian.
#[verifier::external_body]
fn uuid_from_bytes_le(le: [u8; 16]) -> (bytes: [u8; 16])
    ensures
        bytes@ == swap_fields(le@),
{
    Uuid::from_bytes_le(le).into_bytes()
}

/// The UUID that names a stream, as its sixteen bytes in network order.
#[derive(Debug, Clone, Copy, PartialEq, Eq, Hash)]
pub struct StreamId {
    pub bytes: [u8; 16],
}

impl View for StreamId {
    type V = Seq<u8>;

    open spec fn view(&self) -> Seq<u8> {
        self.bytes@
    }
}

impl StreamId {
    /// Reads an identifier from sixteen bytes in network order.
    pub fn from_slice(bytes: &[u8]) -> (id: Option<StreamId>)
        ensures
            id is Some <==> bytes@.len() == 16,
            id matches Some(i) ==> i@ == bytes@,
    {
        match uuid_from_slice(bytes) {
            Some(bytes) => Some(StreamId { bytes }),
            None => None,
        }
    }

    /// The bytes of the identifier with its leading fields little-endian.
    pub fn to_bytes_le(&self) -> (le: [u8; 16])
        ensures
            le@ == swap_fields(self@),
    {
        uuid_to_bytes_le(self.bytes)
    }

    /// Reads an identifier whose leading fields are little-endian.
    pub fn from_bytes_le(le: [u8; 16]) -> (id: StreamId)
        ensures
            id@ == swap_fields(le@),
    {
        StreamId { bytes: uuid_from_bytes_le(le) }
    }

    /// Whether two identifiers name the same stream.
    pub fn same(&self, other: &StreamId) -> (b: bool)
        ensures
            b == (self@ == other@),
            b == (*self == *other),
    {
        let mut i: usize = 0;
        while i < 16
            invariant
                i <= 16,
                forall|j: int| 0 <= j < i ==> self.bytes@[j] == other.bytes@[j],
            decreases 16 - i,
        {
            if self.bytes[i] != other.bytes[i] {
                return false;
            }
            i = i + 1;
        }
        assert(self.bytes@ =~= other.bytes@);
        assert(self.bytes =~= other.bytes);
        true
    }
}

/// The public key that names a node, as its thirty-two bytes.
#[derive(Debug, Clone, Copy, PartialEq, Eq, Hash)]
pub struct NodeId {
    pub bytes: [u8; 32],
}

impl View for NodeId {
    type V = Seq<u8>;

    open spec fn view(&self) -> Seq<u8> {
        self.bytes@
    }
}

impl NodeId {
    /// Whether two identifiers name the same node.
    pub fn same(&self, other: &NodeId) -> (b: bool)
        ensures
            b == (self@ == other@),
            b == (*self == *other),
    {
        let mut i: usize = 0;
        while i < 32
            invariant
                i <= 32,
                forall|j: int| 0 <= j < i ==> self.bytes@[j] == other.bytes@[j],
            decreases 32 - i,
        {
            if self.bytes[i] != other.bytes[i] {
                return false;
            }
            i = i + 1;
        }
        assert(self.bytes@ =~= other.bytes@);
        assert(self.bytes =~= other.bytes);
        true
    }
}

} // verus!
