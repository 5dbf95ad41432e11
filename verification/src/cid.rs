//! Connection IDs, and where a datagram carries the one it is addressed to.
use vstd::prelude::*;
use vstd::slice::{slice_subrange, slice_to_vec};

verus! {

/// The identifier by which datagrams are addressed to a connection.
#[derive(Debug, PartialEq, Eq)]
pub struct ConnectionId {
    bytes: Vec<u8>,
}

impl View for ConnectionId {
    type V = Seq<u8>;

    closed spec fn view(&self) -> Seq<u8> {
        self.bytes@
    }
}

impl ConnectionId {
    /// The connection ID made of the given bytes.
    pub fn new(bytes: &[u8]) -> (r: Self)
        ensures
            r@ == bytes@,
    {
        ConnectionId { bytes: slice_to_vec(bytes) }
    }

    /// The number of bytes.
    pub fn len(&self) -> (r: usize)
        ensures
            r == self@.len(),
    {
        self.bytes.len()
    }

    /// Whether there are no bytes, so that the ID tells no connections apart.
    pub fn is_empty(&self) -> (r: bool)
        ensures
            r == (self@.len() == 0),
    {
        self.bytes.len() == 0
    }

    /// The bytes.
    pub fn as_slice(&self) -> (r: &[u8])
        ensures
            r@ == self@,
    {
        self.bytes.as_slice()
    }
}

/// Whether a datagram starts a packet with a long header, going by its first byte.
pub open spec fn has_long_header(first: u8) -> bool {
    first >= 0x80
}

/// The destination connection ID of the first packet in a datagram, where the datagram is long
/// enough to hold it.
///
/// A long header has it behind the flags, a four-byte version and a byte with its length. A
/// short header has it right behind the flags; its length, `short_cid_len`, is agreed upon
/// beforehand.
pub open spec fn dst_cid(data: Seq<u8>, short_cid_len: nat) -> Option<Seq<u8>> {
    if data.len() == 0 {
        None
    } else if has_long_header(data[0]) {
        if data.len() < 6 || data.len() < 6 + data[5] {
            None
        } else {
            Some(data.subrange(6, 6 + data[5]))
        }
    } else if data.len() < 1 + short_cid_len {
        None
    } else {
        Some(data.subrange(1, 1 + short_cid_len as int))
    }
}

/// Reads the destination connection ID off the front of a datagram.
pub fn fast_path_dst_cid(data: &[u8], short_cid_len: usize) -> (r: Option<ConnectionId>)
    ensures
        match r {
            Some(cid) => dst_cid(data@, short_cid_len as nat) == Some(cid@),
            None => dst_cid(data@, short_cid_len as nat) is None,
        },
{
    if data.len() == 0 {
        return None;
    }
    let first: u8 = data[0];
    assert((first & 0x80 != 0) == (first >= 0x80)) by (bit_vector);
    if first & 0x80 != 0 {
        if data.len() < 6 {
            return None;
        }
        let len: usize = data[5] as usize;
        if data.len() - 6 < len {
            return None;
        }
        Some(ConnectionId::new(slice_subrange(data, 6, 6 + len)))
    } else {
        if data.len() - 1 < short_cid_len {
            return None;
        }
        Some(ConnectionId::new(slice_subrange(data, 1, 1 + short_cid_len)))
    }
}

/// What a datagram holds behind its destination connection ID does not matter to where it is
/// addressed: adding bytes to a datagram long enough to be addressed leaves the address as it
/// is.
pub proof fn law_dst_cid_depends_on_the_front_only(data: Seq<u8>, more: Seq<u8>, short_cid_len: nat)
    requires
        dst_cid(data, short_cid_len) is Some,
    ensures
        dst_cid(data + more, short_cid_len) == dst_cid(data, short_cid_len),
{
    let cid = dst_cid(data, short_cid_len)->0;
    assert((data + more)[0] == data[0]);
    if has_long_header(data[0]) {
        assert((data + more)[5] == data[5]);
        assert((data + more).subrange(6, 6 + data[5]) =~= cid);
    } else {
        assert((data + more).subrange(1, 1 + short_cid_len as int) =~= cid);
    }
}

/// A short-header packet made for a connection ID of the agreed length is addressed to that ID.
pub proof fn law_short_header_addresses_its_cid(first: u8, cid: Seq<u8>, payload: Seq<u8>)
    requires
        first < 0x80,
    ensures
        dst_cid(seq![first] + cid + payload, cid.len()) == Some(cid),
{
    let data = seq![first] + cid + payload;
    assert(data[0] == first);
    assert(data.subrange(1, 1 + cid.len() as int) =~= cid);
}

/// A long-header packet made for a connection ID is addressed to that ID, whatever length is
/// agreed upon for short headers.
pub proof fn law_long_header_addresses_its_cid(
    first: u8,
    version: Seq<u8>,
    cid: Seq<u8>,
    payload: Seq<u8>,
    short_cid_len: nat,
)
    requires
        first >= 0x80,
        version.len() == 4,
        cid.len() <= u8::MAX,
    ensures
        dst_cid(
            seq![first] + version + seq![cid.len() as u8] + cid + payload,
            short_cid_len,
        ) == Some(cid),
{
    let data = seq![first] + version + seq![cid.len() as u8] + cid + payload;
    assert(data[0] == first);
    assert(data[5] == cid.len() as u8);
    assert(data.subrange(6, 6 + data[5]) =~= cid);
}

/// A datagram whose first byte has the top bit set is addressed exactly if it has a byte for the
/// length of the ID behind the flags and the version, and then as many bytes as that says; they
/// are the ID.
pub proof fn law_long_header_is_read_by_its_length(data: Seq<u8>, short_cid_len: nat)
    requires
        data.len() > 0,
        data[0] >= 0x80,
    ensures
        dst_cid(data, short_cid_len) is Some <==> data.len() > 5 && data.len() - 6 >= data[5],
        dst_cid(data, short_cid_len) matches Some(cid) ==> cid.len() == data[5] && forall|i: int|
            0 <= i < cid.len() ==> #[trigger] cid[i] == data[6 + i],
{
}

/// A datagram whose first byte has the top bit clear is addressed exactly if as many bytes follow
/// as IDs are agreed to have; they are the ID. One without any bytes is not addressed.
pub proof fn law_short_header_is_read_by_the_agreed_length(data: Seq<u8>, short_cid_len: nat)
    requires
        data.len() > 0 ==> data[0] < 0x80,
    ensures
        dst_cid(data, short_cid_len) is Some <==> data.len() > short_cid_len,
        dst_cid(data, short_cid_len) matches Some(cid) ==> cid.len() == short_cid_len && forall|
            i: int,
        |
            0 <= i < cid.len() ==> #[trigger] cid[i] == data[1 + i],
{
}

} // verus!
