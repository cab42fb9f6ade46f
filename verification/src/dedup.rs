//! The deduplicating scan: ordering records by prefix and collapsing
//! duplicate prefixes to a single surviving leaf.

use vstd::prelude::*;
use vstd::relations::{sorted_by, total_ordering};
use vstd::seq_lib::lemma_sorted_unique;

use crate::ann::{pfx_seq, sorted_by_pfx, spec_pfx, AnnData};
use crate::plan::EngineEntry;

verus! {

/// The records that survive the left-to-right duplicate-collapsing scan.
/// `last` is the prefix of the most recent survivor (initially 0): a record
/// whose prefix equals `last` is dropped, any other record survives and
/// becomes the new `last`.
pub open spec fn spec_survivors(s: Seq<AnnData>, last: u64) -> Seq<AnnData>
    decreases s.len(),
{
    if s.len() == 0 {
        Seq::empty()
    } else if spec_pfx(s[0]) == last {
        spec_survivors(s.drop_first(), last)
    } else {
        seq![s[0]] + spec_survivors(s.drop_first(), spec_pfx(s[0]))
    }
}

/// The scan never produces more records than it was given.
pub proof fn lemma_survivors_len_le(s: Seq<AnnData>, last: u64)
    ensures
        spec_survivors(s, last).len() <= s.len(),
    decreases s.len(),
{
    if s.len() == 0 {
    } else if spec_pfx(s[0]) == last {
        lemma_survivors_len_le(s.drop_first(), last);
    } else {
        lemma_survivors_len_le(s.drop_first(), spec_pfx(s[0]));
    }
}

/// On a prefix-sorted batch whose prefixes are all at least `last`, the scan
/// keeps exactly one record per distinct prefix above `last`: the survivors'
/// prefixes are strictly increasing, free of duplicates, and form the set of
/// input prefixes with `last` removed.
pub proof fn lemma_survivors_sorted(s: Seq<AnnData>, last: u64)
    requires
        sorted_by_pfx(s),
        forall|i: int| 0 <= i < s.len() ==> last <= spec_pfx(#[trigger] s[i]),
    ensures
        ({
            let v = spec_survivors(s, last);
            &&& forall|i: int| 0 <= i < v.len() ==> last < spec_pfx(#[trigger] v[i])
            &&& forall|i: int, j: int|
                0 <= i < j < v.len() ==> spec_pfx(#[trigger] v[i]) < spec_pfx(#[trigger] v[j])
            &&& pfx_seq(v).to_set() == pfx_seq(s).to_set().remove(last)
            &&& pfx_seq(v).no_duplicates()
        }),
    decreases s.len(),
{
    broadcast use vstd::set::group_set_axioms;

    let v = spec_survivors(s, last);
    if s.len() == 0 {
        assert(pfx_seq(v) =~= Seq::<u64>::empty());
        assert(pfx_seq(s) =~= Seq::<u64>::empty());
        assert(pfx_seq(v).to_set() =~= pfx_seq(s).to_set().remove(last));
    } else {
        let h = s[0];
        let p0 = spec_pfx(h);
        let t = s.drop_first();
        assert forall|i: int, j: int| 0 <= i <= j < t.len() implies spec_pfx(t[i]) <= spec_pfx(
            t[j],
        ) by {
            assert(t[i] == s[i + 1]);
            assert(t[j] == s[j + 1]);
        }
        assert forall|i: int| 0 <= i < t.len() implies p0 <= spec_pfx(#[trigger] t[i]) by {
            assert(t[i] == s[i + 1]);
        }
        assert(pfx_seq(t) =~= pfx_seq(s).drop_first());
        assert forall|x: u64| pfx_seq(s).to_set().contains(x) implies x == p0 || pfx_seq(
            t,
        ).to_set().contains(x) by {
            let i = choose|i: int| 0 <= i < pfx_seq(s).len() && pfx_seq(s)[i] == x;
            if i > 0 {
                assert(pfx_seq(t)[i - 1] == x);
                assert(pfx_seq(t).contains(x));
            }
        }
        assert forall|x: u64| pfx_seq(t).to_set().contains(x) implies pfx_seq(s).to_set().contains(
            x,
        ) by {
            let i = choose|i: int| 0 <= i < pfx_seq(t).len() && pfx_seq(t)[i] == x;
            assert(pfx_seq(s)[i + 1] == x);
        }
        assert(pfx_seq(s).contains(p0)) by {
            assert(pfx_seq(s)[0] == p0);
        }
        assert(pfx_seq(s).to_set() =~= pfx_seq(t).to_set().insert(p0));
        if p0 == last {
            lemma_survivors_sorted(t, last);
            assert(v == spec_survivors(t, last));
            assert(pfx_seq(v).to_set() =~= pfx_seq(s).to_set().remove(last));
        } else {
            assert(last < p0);
            lemma_survivors_sorted(t, p0);
            let vv = spec_survivors(t, p0);
            assert(v == seq![h] + vv);
            assert forall|i: int| 0 <= i < v.len() implies last < spec_pfx(#[trigger] v[i]) by {
                if i == 0 {
                    assert(v[0] == h);
                } else {
                    assert(v[i] == vv[i - 1]);
                }
            }
            assert forall|i: int, j: int| 0 <= i < j < v.len() implies spec_pfx(
                #[trigger] v[i],
            ) < spec_pfx(#[trigger] v[j]) by {
                assert(v[j] == vv[j - 1]);
                if i == 0 {
                    assert(v[0] == h);
                } else {
                    assert(v[i] == vv[i - 1]);
                }
            }
            assert(pfx_seq(v) =~= seq![p0] + pfx_seq(vv));
            assert forall|x: u64| pfx_seq(v).to_set().contains(x) implies x == p0 || pfx_seq(
                vv,
            ).to_set().contains(x) by {
                let i = choose|i: int| 0 <= i < pfx_seq(v).len() && pfx_seq(v)[i] == x;
                if i > 0 {
                    assert(pfx_seq(vv)[i - 1] == x);
                }
            }
            assert forall|x: u64| pfx_seq(vv).to_set().contains(x) implies pfx_seq(
                v,
            ).to_set().contains(x) by {
                let i = choose|i: int| 0 <= i < pfx_seq(vv).len() && pfx_seq(vv)[i] == x;
                assert(pfx_seq(v)[i + 1] == x);
            }
            assert(pfx_seq(v).contains(p0)) by {
                assert(pfx_seq(v)[0] == p0);
            }
            assert(pfx_seq(v).to_set() =~= pfx_seq(vv).to_set().insert(p0));
            // `last` is below every prefix of `t`, so removing it does nothing there.
            assert forall|x: u64| pfx_seq(t).to_set().contains(x) implies p0 <= x by {
                let i = choose|i: int| 0 <= i < pfx_seq(t).len() && pfx_seq(t)[i] == x;
                assert(pfx_seq(t)[i] == spec_pfx(t[i]));
            }
            assert(pfx_seq(v).to_set() =~= pfx_seq(s).to_set().remove(last));
            assert(pfx_seq(v).no_duplicates()) by {
                assert forall|i: int, j: int|
                    0 <= i < pfx_seq(v).len() && 0 <= j < pfx_seq(v).len() && i != j implies
                    pfx_seq(v)[i] != pfx_seq(v)[j] by {
                    if i < j {
                        assert(spec_pfx(v[i]) < spec_pfx(v[j]));
                    } else {
                        assert(spec_pfx(v[j]) < spec_pfx(v[i]));
                    }
                }
            }
        }
    }
}

/// Two batches holding the same records hold the same set of prefixes.
pub proof fn lemma_pfx_set_same_records(a: Seq<AnnData>, b: Seq<AnnData>)
    requires
        a.to_multiset() == b.to_multiset(),
    ensures
        pfx_seq(a).to_set() == pfx_seq(b).to_set(),
{
    broadcast use vstd::set::group_set_axioms;
    broadcast use vstd::seq_lib::group_to_multiset_ensures;

    assert forall|x: u64| pfx_seq(a).to_set().contains(x) implies pfx_seq(b).to_set().contains(
        x,
    ) by {
        let i = choose|i: int| 0 <= i < pfx_seq(a).len() && pfx_seq(a)[i] == x;
        assert(a.contains(a[i]));
        assert(a.to_multiset().count(a[i]) > 0);
        assert(b.to_multiset().count(a[i]) > 0);
        assert(b.contains(a[i]));
        let j = choose|j: int| 0 <= j < b.len() && b[j] == a[i];
        assert(pfx_seq(b)[j] == x);
    }
    assert forall|x: u64| pfx_seq(b).to_set().contains(x) implies pfx_seq(a).to_set().contains(
        x,
    ) by {
        let i = choose|i: int| 0 <= i < pfx_seq(b).len() && pfx_seq(b)[i] == x;
        assert(b.contains(b[i]));
        assert(b.to_multiset().count(b[i]) > 0);
        assert(a.to_multiset().count(b[i]) > 0);
        assert(a.contains(b[i]));
        let j = choose|j: int| 0 <= j < a.len() && a[j] == b[i];
        assert(pfx_seq(a)[j] == x);
    }
    assert(pfx_seq(a).to_set() =~= pfx_seq(b).to_set());
}

/// Determinism: two prefix-sorted batches holding the same records as a
/// multiset are deduplicated to the same prefix sequence — the tree's size
/// and leaf prefix layout do not depend on the records' insertion order.
pub proof fn lemma_dedup_deterministic(a: Seq<AnnData>, b: Seq<AnnData>)
    requires
        sorted_by_pfx(a),
        sorted_by_pfx(b),
        a.to_multiset() == b.to_multiset(),
    ensures
        pfx_seq(spec_survivors(a, 0)) == pfx_seq(spec_survivors(b, 0)),
        spec_survivors(a, 0).len() == spec_survivors(b, 0).len(),
{
    broadcast use vstd::set::group_set_axioms;
    broadcast use vstd::seq_lib::group_to_multiset_ensures;

    let va = pfx_seq(spec_survivors(a, 0));
    let vb = pfx_seq(spec_survivors(b, 0));
    lemma_survivors_sorted(a, 0);
    lemma_survivors_sorted(b, 0);
    lemma_pfx_set_same_records(a, b);
    assert(va.to_set() == vb.to_set());
    va.lemma_multiset_has_no_duplicates();
    vb.lemma_multiset_has_no_duplicates();
    assert forall|x: u64| #[trigger] va.to_multiset().count(x) == vb.to_multiset().count(x) by {
        if va.to_set().contains(x) {
            assert(va.contains(x));
            assert(vb.contains(x));
            assert(va.to_multiset().count(x) == 1);
            assert(vb.to_multiset().count(x) == 1);
        } else {
            assert(!va.contains(x));
            assert(!vb.contains(x));
            assert(va.to_multiset().count(x) == 0);
            assert(vb.to_multiset().count(x) == 0);
        }
    }
    assert(va.to_multiset() =~= vb.to_multiset());
    let leq = |x: u64, y: u64| x <= y;
    assert(total_ordering(leq)) by {
        assert forall|x: u64| #[trigger] leq(x, x) by {}
        assert forall|x: u64, y: u64| #[trigger] leq(x, y) && #[trigger] leq(y, x) implies x
            == y by {}
        assert forall|x: u64, y: u64, z: u64| #[trigger] leq(x, y) && #[trigger] leq(
            y,
            z,
        ) implies leq(x, z) by {}
        assert forall|x: u64, y: u64| #[trigger] leq(x, y) || #[trigger] leq(y, x) by {}
    }
    assert(sorted_by(va, leq)) by {
        let v = spec_survivors(a, 0);
        assert forall|i: int, j: int| 0 <= i < j < va.len() implies #[trigger] leq(
            va[i],
            va[j],
        ) by {
            assert(spec_pfx(v[i]) < spec_pfx(v[j]));
        }
    }
    assert(sorted_by(vb, leq)) by {
        let v = spec_survivors(b, 0);
        assert forall|i: int, j: int| 0 <= i < j < vb.len() implies #[trigger] leq(
            vb[i],
            vb[j],
        ) by {
            assert(spec_pfx(v[i]) < spec_pfx(v[j]));
        }
    }
    lemma_sorted_unique(va, vb, leq);
    assert(va == vb);
}

/// Idempotent reuse: after `reset()` the leaf store still holds a
/// permutation of the batch the first run sorted, so a second computation
/// reproduces the first run's surviving prefixes and size.
pub proof fn lemma_recompute_reproduces(first_run: Seq<AnnData>, second_run: Seq<AnnData>)
    requires
        sorted_by_pfx(first_run),
        sorted_by_pfx(second_run),
        first_run.to_multiset() == second_run.to_multiset(),
    ensures
        pfx_seq(spec_survivors(second_run, 0)) == pfx_seq(spec_survivors(first_run, 0)),
        spec_survivors(second_run, 0).len() == spec_survivors(first_run, 0).len(),
{
    lemma_dedup_deterministic(first_run, second_run);
}

/// Dedup correctness: when no record has prefix 0, the number of survivors
/// is exactly the number of distinct prefixes in the batch; every duplicate
/// collapses away and nothing else is dropped.
pub proof fn lemma_dedup_count(s: Seq<AnnData>)
    requires
        sorted_by_pfx(s),
        forall|i: int| 0 <= i < s.len() ==> spec_pfx(#[trigger] s[i]) != 0,
    ensures
        spec_survivors(s, 0).len() == pfx_seq(s).to_set().len(),
{
    broadcast use vstd::set::group_set_axioms;

    lemma_survivors_sorted(s, 0);
    let v = spec_survivors(s, 0);
    pfx_seq(v).unique_seq_to_set();
    assert(!pfx_seq(s).to_set().contains(0u64)) by {
        if pfx_seq(s).contains(0u64) {
            let i = choose|i: int| 0 <= i < pfx_seq(s).len() && pfx_seq(s)[i] == 0u64;
            assert(spec_pfx(s[i]) != 0);
        }
    }
    assert(pfx_seq(v).to_set() =~= pfx_seq(s).to_set());
    assert(pfx_seq(v).len() == v.len());
}

/// The duplicate-collapsing scan.  Walks the first `count` records once,
/// left to right, and hands back the surviving records' location references
/// (in final slot order) together with the leaf entries to store in the
/// hash engine (prefix as range start; range end still unset).
pub fn dedup_scan(data: &Vec<AnnData>, count: usize) -> (r: (Vec<u32>, Vec<EngineEntry>))
    requires
        count <= data.len(),
    ensures
        ({
            let surv = spec_survivors(data@.subrange(0, count as int), 0);
            &&& r.0@ == surv.map_values(|a: AnnData| a.mloc)
            &&& r.1@.len() == surv.len()
            &&& forall|i: int|
                0 <= i < surv.len() ==> {
                    &&& (#[trigger] r.1@[i]).hash == surv[i].hash
                    &&& r.1@[i].start == spec_pfx(surv[i])
                    &&& r.1@[i].end == 0
                }
        }),
{
    let ghost s = data@.subrange(0, count as int);
    let mut index_table: Vec<u32> = Vec::new();
    let mut entries: Vec<EngineEntry> = Vec::new();
    let ghost mut done: Seq<AnnData> = Seq::empty();
    let mut last_pfx: u64 = 0;
    let mut i: usize = 0;
    proof {
        assert(s.skip(0) =~= s);
    }
    while i < count
        invariant
            count <= data.len(),
            s == data@.subrange(0, count as int),
            0 <= i <= count,
            done + spec_survivors(s.skip(i as int), last_pfx) == spec_survivors(s, 0),
            index_table@ == done.map_values(|a: AnnData| a.mloc),
            entries@.len() == done.len(),
            forall|k: int|
                0 <= k < done.len() ==> {
                    &&& (#[trigger] entries@[k]).hash == done[k].hash
                    &&& entries@[k].start == spec_pfx(done[k])
                    &&& entries@[k].end == 0
                },
        decreases count - i,
    {
        let d = data[i];
        let pfx = d.hash_pfx();
        proof {
            assert(s.skip(i as int)[0] == s[i as int]);
            assert(s[i as int] == data@[i as int]);
            assert(s.skip(i as int).drop_first() =~= s.skip(i + 1));
        }
        if pfx != last_pfx {
            index_table.push(d.mloc);
            entries.push(EngineEntry { hash: d.hash, start: pfx, end: 0 });
            proof {
                let tail = spec_survivors(s.skip(i + 1), pfx);
                assert(spec_survivors(s.skip(i as int), last_pfx) == seq![s[i as int]] + tail);
                assert(done.push(s[i as int]) + tail =~= done + (seq![s[i as int]] + tail));
                done = done.push(s[i as int]);
                assert(index_table@ =~= done.map_values(|a: AnnData| a.mloc));
            }
            last_pfx = pfx;
        } else {
            proof {
                assert(spec_survivors(s.skip(i as int), last_pfx) == spec_survivors(
                    s.skip(i + 1),
                    last_pfx,
                ));
            }
        }
        i += 1;
    }
    proof {
        assert(s.skip(count as int) =~= Seq::empty());
        assert(done =~= done + spec_survivors(s.skip(count as int), last_pfx));
    }
    (index_table, entries)
}

} // verus!
