use prooftree::{AnnData, CompleteError, ComputeError, ProofTree, QueryError};

/// A record whose hash starts with the little-endian bytes of `pfx`.
fn ann(pfx: u64, mloc: u32) -> AnnData {
    let mut hash = [0u8; 32];
    hash[..8].copy_from_slice(&pfx.to_le_bytes());
    AnnData { hash, mloc }
}

fn populate(t: &mut ProofTree, records: &[AnnData]) {
    for (i, r) in records.iter().enumerate() {
        t.ann_data[i] = r.clone();
    }
}

#[test]
fn hash_pfx_reads_first_eight_bytes_little_endian() {
    let mut hash = [0u8; 32];
    hash[0] = 0x01;
    hash[1] = 0x02;
    hash[2] = 0x03;
    hash[3] = 0x04;
    hash[4] = 0x05;
    hash[5] = 0x06;
    hash[6] = 0x07;
    hash[7] = 0x08;
    hash[8] = 0xff; // must not contribute
    let a = AnnData { hash, mloc: 0 };
    assert_eq!(a.hash_pfx(), 0x0807_0605_0403_0201);
}

#[test]
fn default_record_is_zeroed() {
    let a = AnnData::default();
    assert_eq!(a.hash, [0u8; 32]);
    assert_eq!(a.mloc, 0);
    assert_eq!(a.hash_pfx(), 0);
}

#[test]
fn fff_entry_is_all_ones() {
    let e = prooftree::plan::fff_entry();
    assert_eq!(e.hash, [0xffu8; 32]);
    assert_eq!(e.start, u64::MAX);
    assert_eq!(e.end, u64::MAX);
}

#[test]
fn compute_with_zero_records_is_empty_input() {
    let mut t = ProofTree::new(4);
    assert_eq!(t.compute(0), Err(ComputeError::EmptyInput));
}

#[test]
fn compute_beyond_capacity_is_capacity_exceeded() {
    let mut t = ProofTree::new(2);
    assert_eq!(t.compute(3), Err(ComputeError::CapacityExceeded));
    let mut empty = ProofTree::new(0);
    assert_eq!(empty.compute(1), Err(ComputeError::CapacityExceeded));
}

#[test]
fn compute_twice_without_reset_is_already_computed() {
    let mut t = ProofTree::new(4);
    populate(&mut t, &[ann(3, 30), ann(1, 10)]);
    let plan = t.compute(2).unwrap();
    t.complete([7u8; 32], plan.expected_nodes).unwrap();
    assert_eq!(t.compute(2), Err(ComputeError::AlreadyComputed));
    t.reset();
    assert!(t.compute(2).is_ok());
}

#[test]
fn dedup_collapses_duplicate_prefixes() {
    let mut t = ProofTree::new(8);
    // five records, two duplicate pairs (prefixes 3 and 5): size = 5 - 2 = 3
    populate(
        &mut t,
        &[ann(5, 50), ann(3, 33), ann(5, 50), ann(9, 90), ann(3, 33)],
    );
    let plan = t.compute(5).unwrap();
    assert_eq!(t.index_table.len(), 3);
    assert_eq!(t.index_table, vec![33, 50, 90]);
    assert_eq!(plan.leaves.len(), 3);
    assert_eq!(plan.leaves[0].start, 3);
    assert_eq!(plan.leaves[1].start, 5);
    assert_eq!(plan.leaves[2].start, 9);
    assert_eq!(plan.total_leaves, 4);
    for leaf in &plan.leaves {
        assert_eq!(leaf.end, 0);
    }
}

#[test]
fn records_are_sorted_by_prefix_before_dedup() {
    let mut t = ProofTree::new(4);
    populate(&mut t, &[ann(9, 90), ann(1, 10), ann(5, 50)]);
    let plan = t.compute(3).unwrap();
    assert_eq!(t.index_table, vec![10, 50, 90]);
    assert_eq!(plan.leaves[0].start, 1);
    assert_eq!(plan.leaves[1].start, 5);
    assert_eq!(plan.leaves[2].start, 9);
    // the leaf hashes travel with their records
    assert_eq!(plan.leaves[0].hash, ann(1, 10).hash);
}

#[test]
fn zero_prefix_record_is_dropped() {
    let mut t = ProofTree::new(4);
    populate(&mut t, &[ann(0, 1), ann(7, 70)]);
    t.compute(2).unwrap();
    assert_eq!(t.index_table, vec![70]);
}

#[test]
fn commitment_layout_is_exact() {
    let mut t = ProofTree::new(8);
    populate(
        &mut t,
        &[ann(1, 1), ann(2, 2), ann(3, 3), ann(4, 4), ann(5, 5)],
    );
    let plan = t.compute(5).unwrap();
    let mut root = [0u8; 32];
    for (i, b) in root.iter_mut().enumerate() {
        *b = i as u8;
    }
    t.complete(root, plan.expected_nodes).unwrap();
    let c = t.get_commit(10).unwrap();
    let mut expected: Vec<u8> = vec![0x09, 0xf9, 0x11, 0x02, 0x0a, 0x00, 0x00, 0x00];
    expected.extend_from_slice(&root);
    expected.extend_from_slice(&[0x05, 0, 0, 0, 0, 0, 0, 0]);
    assert_eq!(&c[..], &expected[..]);
}

#[test]
fn queries_before_compute_are_not_computed() {
    let mut t = ProofTree::new(4);
    assert!(matches!(t.get_commit(0), Err(QueryError::NotComputed)));
    assert_eq!(t.mk_proof(&[0, 0, 0, 0]), Err(QueryError::NotComputed));
    // a planned but uncompleted computation still has no root
    populate(&mut t, &[ann(1, 1)]);
    t.compute(1).unwrap();
    assert!(matches!(t.get_commit(0), Err(QueryError::NotComputed)));
}

#[test]
fn mk_proof_checks_every_index() {
    let mut t = ProofTree::new(8);
    populate(
        &mut t,
        &[ann(1, 1), ann(2, 2), ann(3, 3), ann(4, 4), ann(5, 5)],
    );
    let plan = t.compute(5).unwrap();
    t.complete([9u8; 32], plan.expected_nodes).unwrap();
    assert_eq!(t.mk_proof(&[0, 1, 2, 3]), Ok([0, 1, 2, 3]));
    assert_eq!(t.mk_proof(&[4, 3, 2, 1]), Ok([4, 3, 2, 1]));
    assert_eq!(t.mk_proof(&[0, 1, 2, 5]), Err(QueryError::IndexOutOfRange));
    assert_eq!(t.mk_proof(&[9, 0, 0, 0]), Err(QueryError::IndexOutOfRange));
}

#[test]
fn complete_checks_the_node_count() {
    let mut t = ProofTree::new(4);
    populate(&mut t, &[ann(1, 1), ann(2, 2)]);
    let plan = t.compute(2).unwrap();
    assert_eq!(
        t.complete([1u8; 32], plan.expected_nodes + 1),
        Err(CompleteError::NodeCountMismatch)
    );
    assert_eq!(t.complete([1u8; 32], plan.expected_nodes), Ok(()));
    assert_eq!(
        t.complete([1u8; 32], plan.expected_nodes),
        Err(CompleteError::NoPendingComputation)
    );
}

#[test]
fn reset_then_recompute_reproduces_the_commitment() {
    let mut t = ProofTree::new(8);
    populate(
        &mut t,
        &[ann(8, 80), ann(2, 20), ann(8, 80), ann(4, 40), ann(6, 60)],
    );
    let plan1 = t.compute(5).unwrap();
    t.complete([5u8; 32], plan1.expected_nodes).unwrap();
    let size1 = t.index_table.len();
    let commit1 = t.get_commit(77).unwrap();

    t.reset();
    let plan2 = t.compute(5).unwrap();
    assert_eq!(plan2.expected_nodes, plan1.expected_nodes);
    assert_eq!(plan2.total_leaves, plan1.total_leaves);
    t.complete([5u8; 32], plan2.expected_nodes).unwrap();
    assert_eq!(t.index_table.len(), size1);
    let commit2 = t.get_commit(77).unwrap();
    assert_eq!(&commit1[..], &commit2[..]);
}

#[test]
fn insertion_order_does_not_change_the_layout() {
    let records = [ann(11, 1), ann(3, 2), ann(7, 3), ann(3, 2), ann(20, 4)];
    let mut orders: Vec<Vec<AnnData>> = Vec::new();
    orders.push(records.to_vec());
    let mut reversed = records.to_vec();
    reversed.reverse();
    orders.push(reversed);

    let mut outcomes: Vec<(Vec<u32>, Vec<u64>, u64)> = Vec::new();
    for order in &orders {
        let mut t = ProofTree::new(8);
        populate(&mut t, order);
        let plan = t.compute(order.len()).unwrap();
        let starts: Vec<u64> = plan.leaves.iter().map(|l| l.start).collect();
        outcomes.push((t.index_table.clone(), starts, plan.expected_nodes));
    }
    assert_eq!(outcomes[0], outcomes[1]);
}

#[test]
fn odd_layer_counts_are_padded_to_a_single_root() {
    let mut t = ProofTree::new(8);
    populate(
        &mut t,
        &[ann(1, 1), ann(2, 2), ann(3, 3), ann(4, 4), ann(5, 5)],
    );
    let plan = t.compute(5).unwrap();
    // 5 survivors + sentinel = 6 leaf slots
    assert_eq!(plan.total_leaves, 6);
    assert_eq!(plan.levels.len(), 3);

    // layer 0: 6 nodes at slots 0..6, no padding, 3 pairs into 6..9
    assert_eq!(plan.levels[0].pad_slot, None);
    let p0: Vec<(u64, u64)> = plan.levels[0].pairs.iter().map(|p| (p.out_slot, p.in_slot)).collect();
    assert_eq!(p0, vec![(6, 0), (7, 2), (8, 4)]);

    // layer 1: 3 nodes at 6..9, padded at 9, 2 pairs into 10..12
    assert_eq!(plan.levels[1].pad_slot, Some(9));
    let p1: Vec<(u64, u64)> = plan.levels[1].pairs.iter().map(|p| (p.out_slot, p.in_slot)).collect();
    assert_eq!(p1, vec![(10, 6), (11, 8)]);

    // layer 2: 2 nodes at 10..12, 1 pair into 12 — the root
    assert_eq!(plan.levels[2].pad_slot, None);
    let p2: Vec<(u64, u64)> = plan.levels[2].pairs.iter().map(|p| (p.out_slot, p.in_slot)).collect();
    assert_eq!(p2, vec![(12, 10)]);

    // the engine must report one node past the root slot
    assert_eq!(plan.expected_nodes, 13);
}

#[test]
fn single_survivor_still_builds_a_tree() {
    let mut t = ProofTree::new(2);
    populate(&mut t, &[ann(42, 7)]);
    let plan = t.compute(1).unwrap();
    assert_eq!(plan.total_leaves, 2);
    assert_eq!(plan.levels.len(), 1);
    assert_eq!(plan.levels[0].pad_slot, None);
    let p0: Vec<(u64, u64)> = plan.levels[0].pairs.iter().map(|p| (p.out_slot, p.in_slot)).collect();
    assert_eq!(p0, vec![(2, 0)]);
    assert_eq!(plan.expected_nodes, 3);
    assert_eq!(t.index_table, vec![7]);
}

#[test]
fn commitment_encodes_multi_byte_values_little_endian() {
    let mut t = ProofTree::new(4);
    populate(&mut t, &[ann(1, 1), ann(2, 2)]);
    let plan = t.compute(2).unwrap();
    t.complete([0u8; 32], plan.expected_nodes).unwrap();
    let c = t.get_commit(0x0102_0304).unwrap();
    assert_eq!(&c[..4], &[0x09, 0xf9, 0x11, 0x02]);
    assert_eq!(&c[4..8], &[0x04, 0x03, 0x02, 0x01]);
    assert_eq!(&c[8..40], &[0u8; 32]);
    assert_eq!(&c[40..48], &[0x02, 0, 0, 0, 0, 0, 0, 0]);
}
