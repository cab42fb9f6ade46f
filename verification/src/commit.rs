//! The fixed 44-byte commitment record, and the byte buffer it is built in.

use vstd::prelude::*;

verus! {

/// `bytes::BytesMut` declared for Verus: an opaque, growable byte buffer.
#[verifier::external_type_specification]
#[verifier::external_body]
pub struct ExBytesMut(bytes::BytesMut);

/// The bytes a `bytes::BytesMut` buffer currently holds, in order.
pub uninterp spec fn bytes_view(b: bytes::BytesMut) -> Seq<u8>;

/// The four bytes of `x`, least significant first.
pub open spec fn u32_le(x: u32) -> Seq<u8> {
    seq![
        (x % 0x100) as u8,
        ((x / 0x100) % 0x100) as u8,
        ((x / 0x1_0000) % 0x100) as u8,
        ((x / 0x100_0000) % 0x100) as u8,
    ]
}

/// The eight bytes of `x`, least significant first.
pub open spec fn u64_le(x: u64) -> Seq<u8> {
    seq![
        (x % 0x100) as u8,
        ((x / 0x100) % 0x100) as u8,
        ((x / 0x1_0000) % 0x100) as u8,
        ((x / 0x100_0000) % 0x100) as u8,
        ((x / 0x1_0000_0000) % 0x100) as u8,
        ((x / 0x100_0000_0000) % 0x100) as u8,
        ((x / 0x1_0000_0000_0000) % 0x100) as u8,
        ((x / 0x100_0000_0000_0000) % 0x100) as u8,
    ]
}

/// The fixed-size commitment record: a 4-byte format tag, the 4-byte
/// little-endian minimum-work threshold, the 32-byte root hash, and the
/// little-endian leaf count widened to 64 bits — 48 bytes in all.
pub open spec fn spec_commit(min_work: u32, root: [u8; 32], size: u32) -> Seq<u8> {
    seq![0x09u8, 0xf9u8, 0x11u8, 0x02u8] + u32_le(min_work) + root@ + u64_le(size as u64)
}

/// Relies on `bytes::BytesMut::with_capacity`: a freshly created buffer
/// holds no bytes.
#[verifier::external_body]
pub(crate) fn bytes_with_capacity(cap: usize) -> (r: bytes::BytesMut)
    ensures
        bytes_view(r) == Seq::<u8>::empty(),
{
    bytes::BytesMut::with_capacity(cap)
}

/// Relies on `bytes::BufMut::put_u32_le`: appends the four bytes of `x` in
/// little-endian order.  (`BytesMut` grows as needed; the small length
/// bound keeps well clear of its capacity-overflow panic.)
#[verifier::external_body]
pub(crate) fn put_u32_le(b: &mut bytes::BytesMut, x: u32)
    requires
        bytes_view(*old(b)).len() <= 1024,
    ensures
        bytes_view(*final(b)) == bytes_view(*old(b)) + u32_le(x),
{
    bytes::BufMut::put_u32_le(b, x)
}

/// Relies on `bytes::BufMut::put_u64_le`: appends the eight bytes of `x`
/// in little-endian order.
#[verifier::external_body]
pub(crate) fn put_u64_le(b: &mut bytes::BytesMut, x: u64)
    requires
        bytes_view(*old(b)).len() <= 1024,
    ensures
        bytes_view(*final(b)) == bytes_view(*old(b)) + u64_le(x),
{
    bytes::BufMut::put_u64_le(b, x)
}

/// Relies on `bytes::BufMut::put_slice`: appends the given bytes unchanged.
#[verifier::external_body]
pub(crate) fn put_hash(b: &mut bytes::BytesMut, h: &[u8; 32])
    requires
        bytes_view(*old(b)).len() <= 1024,
    ensures
        bytes_view(*final(b)) == bytes_view(*old(b)) + h@,
{
    bytes::BufMut::put_slice(b, &h[..])
}

/// Serialize the commitment record for the given work threshold, root hash
/// and leaf count.
pub fn encode_commit(min_work: u32, root: &[u8; 32], size: u32) -> (r: bytes::BytesMut)
    ensures
        bytes_view(r) == spec_commit(min_work, *root, size),
        bytes_view(r).len() == 48,
{
    let mut out = bytes_with_capacity(48);
    put_u32_le(&mut out, 0x0211_f909);
    proof {
        assert(u32_le(0x0211_f909u32) =~= seq![0x09u8, 0xf9u8, 0x11u8, 0x02u8]);
        assert(bytes_view(out).len() == 4);
    }
    put_u32_le(&mut out, min_work);
    proof {
        assert(bytes_view(out).len() == 8);
    }
    put_hash(&mut out, root);
    proof {
        assert(bytes_view(out).len() == 40);
    }
    put_u64_le(&mut out, size as u64);
    proof {
        broadcast use vstd::array::array_len_matches_n;

        assert(bytes_view(out) =~= spec_commit(min_work, *root, size));
        assert(root@.len() == 32);
        assert(bytes_view(out).len() == 48);
    }
    out
}

} // verus!
