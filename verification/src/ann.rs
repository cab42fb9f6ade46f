//! Announcement records and their ordering by hash prefix.

use vstd::prelude::*;

verus! {

/// One announcement record: the announcement's 32-byte hash and an opaque
/// 32-bit back-reference (`mloc`) into external announcement storage.
#[derive(Clone, Copy)]
pub struct AnnData {
    pub hash: [u8; 32],
    pub mloc: u32,
}

/// The sort and dedup key of a record: the first eight bytes of its hash,
/// read as a little-endian unsigned 64-bit integer.
pub open spec fn spec_pfx(a: AnnData) -> u64 {
    (a.hash@[0] + a.hash@[1] * 0x100 + a.hash@[2] * 0x1_0000 + a.hash@[3] * 0x100_0000
        + a.hash@[4] * 0x1_0000_0000 + a.hash@[5] * 0x100_0000_0000
        + a.hash@[6] * 0x1_0000_0000_0000 + a.hash@[7] * 0x100_0000_0000_0000) as u64
}

/// The prefixes of a sequence of records, in order.
pub open spec fn pfx_seq(s: Seq<AnnData>) -> Seq<u64> {
    s.map_values(|a: AnnData| spec_pfx(a))
}

/// The records are in ascending order of hash prefix.
pub open spec fn sorted_by_pfx(s: Seq<AnnData>) -> bool {
    forall|i: int, j: int| 0 <= i <= j < s.len() ==> spec_pfx(s[i]) <= spec_pfx(s[j])
}

impl AnnData {
    /// The record's little-endian 64-bit hash prefix.
    pub fn hash_pfx(&self) -> (r: u64)
        ensures
            r == spec_pfx(*self),
    {
        let b0 = self.hash[0] as u64;
        let b1 = self.hash[1] as u64;
        let b2 = self.hash[2] as u64;
        let b3 = self.hash[3] as u64;
        let b4 = self.hash[4] as u64;
        let b5 = self.hash[5] as u64;
        let b6 = self.hash[6] as u64;
        let b7 = self.hash[7] as u64;
        b0 + b1 * 0x100 + b2 * 0x1_0000 + b3 * 0x100_0000 + b4 * 0x1_0000_0000
            + b5 * 0x100_0000_0000 + b6 * 0x1_0000_0000_0000 + b7 * 0x100_0000_0000_0000
    }
}

impl Default for AnnData {
    /// A zeroed record, used to prefill the leaf store.
    fn default() -> (r: AnnData)
        ensures
            r.hash@ == Seq::new(32, |i: int| 0u8),
            r.mloc == 0,
    {
        let hash = [0u8; 32];
        proof {
            assert(hash@ =~= Seq::new(32, |i: int| 0u8));
        }
        AnnData { hash, mloc: 0 }
    }
}

/// Relies on rayon's `ParallelSliceMut::par_sort_unstable_by_key`: it sorts
/// the slice in place by the extracted key (here the record's hash prefix),
/// so afterwards the first `count` records are a permutation of what they
/// were, in ascending prefix order.  The records past `count` are untouched.
#[verifier::external_body]
pub(crate) fn sort_records_by_pfx(v: &mut Vec<AnnData>, count: usize)
    requires
        count <= old(v).len(),
    ensures
        final(v)@.len() == old(v)@.len(),
        final(v)@.subrange(count as int, final(v)@.len() as int) == old(v)@.subrange(
            count as int,
            old(v)@.len() as int,
        ),
        final(v)@.subrange(0, count as int).to_multiset() == old(v)@.subrange(
            0,
            count as int,
        ).to_multiset(),
        sorted_by_pfx(final(v)@.subrange(0, count as int)),
{
    rayon::slice::ParallelSliceMut::par_sort_unstable_by_key(
        &mut v[..count],
        |a: &AnnData| a.hash_pfx(),
    );
}

} // verus!
