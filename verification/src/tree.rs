//! The proof tree itself: its state machine, the computation that sorts,
//! deduplicates and schedules the tree build, the commitment encoder, and
//! proof-request validation.

use vstd::prelude::*;

use crate::ann::{pfx_seq, sort_records_by_pfx, sorted_by_pfx, spec_pfx, AnnData};
use crate::commit::{bytes_view, encode_commit, spec_commit};
use crate::dedup::{
    dedup_scan, lemma_pfx_set_same_records, lemma_survivors_len_le, lemma_survivors_sorted,
    spec_survivors,
};
use crate::plan::{build_levels, layer_state, levels_ok, ComputePlan};

verus! {

/// Why a computation could not run.
#[derive(Clone, Copy, Debug, PartialEq, Eq)]
pub enum ComputeError {
    /// `compute()` was called while the tree already holds a root; call
    /// `reset()` first.
    AlreadyComputed,
    /// `compute()` was called with zero records.
    EmptyInput,
    /// The record count exceeds the tree's fixed capacity.
    CapacityExceeded,
}

/// Why a commitment or proof request could not be answered.
#[derive(Clone, Copy, Debug, PartialEq, Eq)]
pub enum QueryError {
    /// The tree holds no root yet.
    NotComputed,
    /// A requested leaf index is not below the tree's size.
    IndexOutOfRange,
}

/// Why an engine completion result was rejected.
#[derive(Clone, Copy, Debug, PartialEq, Eq)]
pub enum CompleteError {
    /// No computation is awaiting completion.
    NoPendingComputation,
    /// The engine reported a different node count than the schedule calls
    /// for.  This is an internal-consistency violation, not a recoverable
    /// condition: the caller should abort rather than carry on with the
    /// tree.
    NodeCountMismatch,
}

/// A Merkle commitment tree over announcement records.
///
/// The tree cycles through three states: empty or populated (no root),
/// mid-computation (`compute` has produced a schedule whose completion is
/// pending), and computed (`root_hash` present).  Callers place records in
/// the first `count` slots of `ann_data`, call `compute(count)`, run the
/// returned plan on the hash engine, and feed the engine's root and node
/// count back through `complete`.
pub struct ProofTree {
    pub capacity: u32,
    pub size: u32,
    pub root_hash: Option<[u8; 32]>,
    pub ann_data: Vec<AnnData>,
    pub index_table: Vec<u32>,
    pub pending_nodes: Option<u64>,
}

impl ProofTree {
    /// The tree's structural invariant: the leaf store spans the full
    /// capacity, the size never exceeds it, and a pending computation
    /// excludes a present root.
    pub open spec fn wf(self) -> bool {
        &&& self.ann_data@.len() == self.capacity as nat
        &&& self.size <= self.capacity
        &&& (self.pending_nodes is Some ==> self.root_hash is None)
    }

    /// A new, empty tree with room for `max_anns` records.
    pub fn new(max_anns: u32) -> (r: ProofTree)
        ensures
            r.wf(),
            r.capacity == max_anns,
            r.size == 0,
            r.root_hash is None,
            r.pending_nodes is None,
            r.ann_data@.len() == max_anns as nat,
            r.index_table@.len() == 0,
    {
        let mut ann_data: Vec<AnnData> = Vec::new();
        let mut i: u32 = 0;
        while i < max_anns
            invariant
                i <= max_anns,
                ann_data@.len() == i as nat,
            decreases max_anns - i,
        {
            ann_data.push(AnnData::default());
            i = i + 1;
        }
        ProofTree {
            capacity: max_anns,
            size: 0,
            root_hash: None,
            ann_data,
            index_table: Vec::new(),
            pending_nodes: None,
        }
    }

    /// Forget the current root and size so the backing storage can be
    /// reused for a fresh batch.  The records themselves are untouched.
    pub fn reset(&mut self)
        ensures
            final(self).root_hash is None,
            final(self).size == 0,
            final(self).pending_nodes is None,
            final(self).capacity == old(self).capacity,
            final(self).ann_data == old(self).ann_data,
            final(self).index_table == old(self).index_table,
            old(self).wf() ==> final(self).wf(),
    {
        self.size = 0;
        self.root_hash = None;
        self.pending_nodes = None;
    }

    /// Sort the first `count` records by hash prefix, collapse duplicate
    /// prefixes, and lay out the engine schedule that will turn the
    /// survivors into a single root.
    ///
    /// On success the tree's `index_table` holds each survivor's location
    /// reference in final slot order, `size` is the survivor count — the
    /// number of distinct nonzero prefixes among the input records — and
    /// the returned plan must be run on the hash engine, whose completion
    /// result is then fed to `complete`.
    pub fn compute(&mut self, count: usize) -> (r: Result<ComputePlan, ComputeError>)
        requires
            old(self).wf(),
        ensures
            final(self).wf(),
            final(self).capacity == old(self).capacity,
            r is Ok <==> (old(self).root_hash is None && 0 < count <= old(self).capacity),
            old(self).root_hash is Some ==> r == Err::<ComputePlan, ComputeError>(
                ComputeError::AlreadyComputed,
            ),
            old(self).root_hash is None && count == 0 ==> r == Err::<ComputePlan, ComputeError>(
                ComputeError::EmptyInput,
            ),
            old(self).root_hash is None && count > old(self).capacity ==> r == Err::<
                ComputePlan,
                ComputeError,
            >(ComputeError::CapacityExceeded),
            r is Err ==> *final(self) == *old(self),
            r matches Ok(plan) ==> ({
                let s_in = old(self).ann_data@.subrange(0, count as int);
                let s_sorted = final(self).ann_data@.subrange(0, count as int);
                let surv = spec_survivors(s_sorted, 0);
                &&& sorted_by_pfx(s_sorted)
                &&& s_sorted.to_multiset() == s_in.to_multiset()
                &&& final(self).ann_data@.len() == old(self).ann_data@.len()
                &&& final(self).ann_data@.subrange(count as int, final(self).ann_data@.len() as int)
                    == old(self).ann_data@.subrange(count as int, old(self).ann_data@.len() as int)
                &&& final(self).index_table@ == surv.map_values(|a: AnnData| a.mloc)
                &&& final(self).size == surv.len()
                &&& final(self).size as nat == pfx_seq(s_in).to_set().remove(0u64).len()
                &&& final(self).root_hash is None
                &&& plan.leaves@.len() == surv.len()
                &&& (forall|i: int|
                    0 <= i < surv.len() ==> {
                        &&& (#[trigger] plan.leaves@[i]).hash == surv[i].hash
                        &&& plan.leaves@[i].start == spec_pfx(surv[i])
                        &&& plan.leaves@[i].end == 0
                    })
                &&& plan.total_leaves == surv.len() + 1
                &&& levels_ok((surv.len() + 1) as nat, plan.levels@)
                &&& plan.expected_nodes == layer_state(
                    (surv.len() + 1) as nat,
                    plan.levels@.len() as nat,
                ).1 + 1
                &&& final(self).pending_nodes == Some(plan.expected_nodes)
            }),
    {
        if self.root_hash.is_some() {
            return Err(ComputeError::AlreadyComputed);
        }
        if count == 0 {
            return Err(ComputeError::EmptyInput);
        }
        if count > self.capacity as usize {
            return Err(ComputeError::CapacityExceeded);
        }
        sort_records_by_pfx(&mut self.ann_data, count);
        let (index_table, entries) = dedup_scan(&self.ann_data, count);
        let ghost s_in = old(self).ann_data@.subrange(0, count as int);
        let ghost s_sorted = self.ann_data@.subrange(0, count as int);
        let ghost surv = spec_survivors(s_sorted, 0);
        proof {
            lemma_survivors_len_le(s_sorted, 0);
            lemma_survivors_sorted(s_sorted, 0);
            pfx_seq(surv).unique_seq_to_set();
            lemma_pfx_set_same_records(s_sorted, s_in);
            assert(surv.map_values(|a: AnnData| a.mloc).len() == surv.len());
            assert(pfx_seq(surv).len() == surv.len());
        }
        let n_surv = index_table.len();
        let n: u64 = (n_surv as u64) + 1;
        let (levels, expected) = build_levels(n);
        self.index_table = index_table;
        self.size = n_surv as u32;
        self.pending_nodes = Some(expected);
        Ok(ComputePlan { leaves: entries, total_leaves: n, levels, expected_nodes: expected })
    }

    /// Accept the hash engine's completion result: its root hash and the
    /// node count it wrote.  The count must equal the schedule's expected
    /// count; a mismatch means the bookkeeping and the engine disagree and
    /// the tree must not be trusted.
    pub fn complete(&mut self, root: [u8; 32], total_nodes: u64) -> (r: Result<(), CompleteError>)
        requires
            old(self).wf(),
        ensures
            final(self).wf(),
            old(self).pending_nodes is None ==> r == Err::<(), CompleteError>(
                CompleteError::NoPendingComputation,
            ) && *final(self) == *old(self),
            old(self).pending_nodes matches Some(exp) && total_nodes != exp ==> r == Err::<
                (),
                CompleteError,
            >(CompleteError::NodeCountMismatch) && *final(self) == *old(self),
            old(self).pending_nodes == Some(total_nodes) ==> ({
                &&& r == Ok::<(), CompleteError>(())
                &&& final(self).root_hash == Some(root)
                &&& final(self).pending_nodes is None
                &&& final(self).size == old(self).size
                &&& final(self).capacity == old(self).capacity
                &&& final(self).ann_data == old(self).ann_data
                &&& final(self).index_table == old(self).index_table
            }),
    {
        match self.pending_nodes {
            None => Err(CompleteError::NoPendingComputation),
            Some(exp) => {
                if total_nodes != exp {
                    return Err(CompleteError::NodeCountMismatch);
                }
                self.pending_nodes = None;
                self.root_hash = Some(root);
                Ok(())
            },
        }
    }

    /// Encode the fixed-size commitment record for a computed tree: the
    /// format tag, the caller's minimum-work threshold, the root hash and
    /// the leaf count.  Pure; may be called repeatedly.
    pub fn get_commit(&self, ann_min_work: u32) -> (r: Result<bytes::BytesMut, QueryError>)
        ensures
            r is Ok <==> self.root_hash is Some,
            r is Err ==> r == Err::<bytes::BytesMut, QueryError>(QueryError::NotComputed),
            r matches Ok(b) ==> bytes_view(b) == spec_commit(
                ann_min_work,
                self.root_hash->Some_0,
                self.size,
            ) && bytes_view(b).len() == 48,
    {
        match &self.root_hash {
            None => Err(QueryError::NotComputed),
            Some(h) => Ok(encode_commit(ann_min_work, h, self.size)),
        }
    }

    /// Validate a proof request: the tree must hold a root and every one
    /// of the four requested leaf indices must be below the tree's size.
    /// The validated indices are handed back for the engine's multi-proof
    /// call.
    pub fn mk_proof(&self, ann_nums: &[u64; 4]) -> (r: Result<[u64; 4], QueryError>)
        ensures
            self.root_hash is None ==> r == Err::<[u64; 4], QueryError>(QueryError::NotComputed),
            self.root_hash is Some ==> {
                &&& (exists|i: int| 0 <= i < 4 && #[trigger] ann_nums@[i] >= self.size)
                    ==> r == Err::<[u64; 4], QueryError>(QueryError::IndexOutOfRange)
                &&& (forall|i: int| 0 <= i < 4 ==> #[trigger] ann_nums@[i] < self.size)
                    ==> r == Ok::<[u64; 4], QueryError>(*ann_nums)
            },
    {
        if self.root_hash.is_none() {
            return Err(QueryError::NotComputed);
        }
        let mut i: usize = 0;
        while i < 4
            invariant
                i <= 4,
                self.root_hash is Some,
                forall|k: int| 0 <= k < i ==> #[trigger] ann_nums@[k] < self.size,
            decreases 4 - i,
        {
            if ann_nums[i] >= self.size as u64 {
                return Err(QueryError::IndexOutOfRange);
            }
            i = i + 1;
        }
        Ok(*ann_nums)
    }
}

} // verus!
