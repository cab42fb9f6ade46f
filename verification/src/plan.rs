//! The operation schedule handed to the external hash engine.

use vstd::prelude::*;

verus! {

/// One leaf or node record as the hash engine stores it: a 32-byte hash and
/// the half-open `[start, end)` range of prefixes its subtree covers.
#[derive(Clone, Copy, PartialEq, Eq, Debug)]
pub struct EngineEntry {
    pub hash: [u8; 32],
    pub start: u64,
    pub end: u64,
}

/// The all-ones padding entry appended to a layer with an odd node count.
pub fn fff_entry() -> (r: EngineEntry)
    ensures
        r.hash@ == Seq::new(32, |i: int| 0xffu8),
        r.start == 0xffff_ffff_ffff_ffffu64,
        r.end == 0xffff_ffff_ffff_ffffu64,
{
    let hash = [0xffu8; 32];
    proof {
        assert(hash@ =~= Seq::new(32, |i: int| 0xffu8));
    }
    EngineEntry { hash, start: 0xffff_ffff_ffff_ffff, end: 0xffff_ffff_ffff_ffff }
}

/// One pair combination: the engine combines the nodes at `in_slot` and
/// `in_slot + 1` into a parent node written at `out_slot`.
#[derive(Clone, Copy, PartialEq, Eq, Debug)]
pub struct PairOp {
    pub out_slot: u64,
    pub in_slot: u64,
}

/// One tree level: an optional padding write (when the layer's node count
/// is odd) followed by the pair combinations of that level.  All pairs of
/// one level touch disjoint slots and may run in parallel; the next level
/// must wait for every one of them.
#[derive(Clone, Debug, PartialEq, Eq)]
pub struct TreeLevel {
    pub pad_slot: Option<u64>,
    pub pairs: Vec<PairOp>,
}

/// Everything the hash engine must be told to turn the surviving leaves
/// into a root: the leaf entries (slot `i + 1` holds `leaves[i]`; slot 0 is
/// the reserved sentinel), the total leaf count for range preparation, the
/// level schedule, and the node count the engine's completion call must
/// report back.
#[derive(Clone, Debug, PartialEq, Eq)]
pub struct ComputePlan {
    pub leaves: Vec<EngineEntry>,
    pub total_leaves: u64,
    pub levels: Vec<TreeLevel>,
    pub expected_nodes: u64,
}

/// A layer's node count rounded up to even: an odd layer receives one
/// padding node before pairing.
pub open spec fn padded(c: nat) -> nat {
    if c % 2 == 1 {
        (c + 1) as nat
    } else {
        c
    }
}

/// The (node count, first slot) of layer `k` of a tree that starts with
/// `n` leaf slots (sentinel included) at slot 0.  Once a layer is down to a
/// single node the state no longer changes.
pub open spec fn layer_state(n: nat, k: nat) -> (nat, nat)
    decreases k,
{
    if k == 0 {
        (n, 0)
    } else {
        let (c, idx) = layer_state(n, (k - 1) as nat);
        if c <= 1 {
            (c, idx)
        } else {
            ((padded(c) / 2) as nat, (idx + padded(c)) as nat)
        }
    }
}

/// `l` is the correct schedule for layer `k`: the padding write sits at the
/// slot just past the layer exactly when the layer is odd, and there is one
/// pair per two padded nodes, reading consecutive slots of this layer and
/// writing consecutive slots of the next.
pub open spec fn level_ok(n: nat, k: nat, l: TreeLevel) -> bool {
    let (c, idx) = layer_state(n, k);
    let c2 = padded(c);
    &&& l.pad_slot == (if c % 2 == 1 {
        Some((idx + c) as u64)
    } else {
        None::<u64>
    })
    &&& l.pairs@.len() == c2 / 2
    &&& forall|j: int|
        0 <= j < l.pairs@.len() ==> {
            &&& (#[trigger] l.pairs@[j]).out_slot == idx + c2 + j
            &&& l.pairs@[j].in_slot == idx + 2 * j
        }
}

/// The level schedule is complete: every level works on a layer of at
/// least two nodes, and after the last level a single node — the root —
/// remains.
pub open spec fn levels_ok(n: nat, ls: Seq<TreeLevel>) -> bool {
    &&& forall|k: int| 0 <= k < ls.len() ==> (#[trigger] layer_state(n, k as nat)).0 >= 2
    &&& forall|k: int| 0 <= k < ls.len() ==> level_ok(n, k as nat, #[trigger] ls[k])
    &&& layer_state(n, ls.len() as nat).0 == 1
}

/// Lay out the level-by-level combination schedule for `n` leaf slots
/// (sentinel included).  Returns the levels together with the total node
/// count the engine's completion call must report: the slot just past the
/// root, one more than the root's own slot.
pub fn build_levels(n: u64) -> (r: (Vec<TreeLevel>, u64))
    requires
        1 <= n <= 0x1_0000_0000,
    ensures
        levels_ok(n as nat, r.0@),
        r.1 == layer_state(n as nat, r.0@.len() as nat).1 + 1,
{
    let ghost n0 = n as nat;
    let mut levels: Vec<TreeLevel> = Vec::new();
    let mut c: u64 = n;
    let mut idx: u64 = 0;
    while c > 1
        invariant
            1 <= c,
            n0 <= 0x1_0000_0000,
            idx + 5 * c <= 5 * n0,
            (c as nat, idx as nat) == layer_state(n0, levels@.len() as nat),
            forall|k: int|
                0 <= k < levels@.len() ==> (#[trigger] layer_state(n0, k as nat)).0 >= 2,
            forall|k: int|
                0 <= k < levels@.len() ==> level_ok(n0, k as nat, #[trigger] levels@[k]),
        decreases c,
    {
        let odd = c % 2 == 1;
        let c2 = if odd {
            c + 1
        } else {
            c
        };
        let np = c2 / 2;
        let pad_slot = if odd {
            Some(idx + c)
        } else {
            None
        };
        let mut pairs: Vec<PairOp> = Vec::new();
        let mut j: u64 = 0;
        while j < np
            invariant
                j <= np,
                c2 == padded(c as nat),
                np == c2 / 2,
                idx + 5 * c <= 5 * n0,
                n0 <= 0x1_0000_0000,
                1 <= c,
                pairs@.len() == j,
                forall|t: int|
                    0 <= t < j ==> (#[trigger] pairs@[t]).out_slot == idx + c2 + t
                        && pairs@[t].in_slot == idx + 2 * t,
            decreases np - j,
        {
            pairs.push(PairOp { out_slot: idx + c2 + j, in_slot: idx + 2 * j });
            j += 1;
        }
        let ghost old_levels = levels@;
        levels.push(TreeLevel { pad_slot, pairs });
        proof {
            let k = (levels@.len() - 1) as nat;
            assert((c as nat, idx as nat) == layer_state(n0, k));
            assert(level_ok(n0, k, levels@[k as int]));
            assert forall|k2: int|
                0 <= k2 < levels@.len() implies (#[trigger] layer_state(n0, k2 as nat)).0
                >= 2 by {
                if k2 == levels@.len() - 1 {
                    assert(layer_state(n0, k2 as nat) == layer_state(n0, k));
                }
            }
            assert forall|k2: int|
                0 <= k2 < levels@.len() implies level_ok(
                n0,
                k2 as nat,
                #[trigger] levels@[k2],
            ) by {
                if k2 < levels@.len() - 1 {
                    assert(levels@[k2] == old_levels[k2]);
                } else {
                    assert(levels@[k2] == levels@[k as int]);
                }
            }
            assert(layer_state(n0, k + 1) == (
                (padded(c as nat) / 2) as nat,
                (idx as nat + padded(c as nat)) as nat,
            ));
            if odd {
                let half = ((c + 1) / 2) as int;
                assert(c as int + 1 == 2 * half);
                assert(c >= 3);
                assert(idx as int + c as int + 1 + 5 * half <= idx as int + 5 * c as int);
            } else {
                let half = (c / 2) as int;
                assert(c as int == 2 * half);
                assert(idx as int + c as int + 5 * half <= idx as int + 5 * c as int);
            }
        }
        idx = idx + c2;
        c = np;
    }
    (levels, idx + 1)
}

/// Odd-count padding: starting from any leaf count at all, the layer
/// progression reaches a layer of exactly one node — a single root with no
/// unmerged node left behind, whatever padding steps were needed on the way.
pub proof fn lemma_schedule_reaches_root(n: nat)
    requires
        1 <= n,
    ensures
        exists|m: nat| (#[trigger] layer_state(n, m)).0 == 1,
{
    lemma_reaches_root_from(n, 0);
}

proof fn lemma_reaches_root_from(n: nat, k: nat)
    requires
        1 <= layer_state(n, k).0,
    ensures
        exists|m: nat| (#[trigger] layer_state(n, m)).0 == 1,
    decreases layer_state(n, k).0,
{
    let (c, idx) = layer_state(n, k);
    if c == 1 {
        assert((layer_state(n, k)).0 == 1);
    } else {
        assert(layer_state(n, k + 1) == (
            (padded(c) / 2) as nat,
            (idx + padded(c)) as nat,
        ));
        assert(padded(c) / 2 < c);
        assert(1 <= padded(c) / 2);
        lemma_reaches_root_from(n, k + 1);
    }
}

} // verus!
