use ledger_truncation::accumulator::boundary_position;
use ledger_truncation::cmd::{CatchUpRange, Cmd, TruncateError};
use ledger_truncation::store::{LedgerStore, TreeStore};
use ledger_truncation::table::Entry;

fn e(k1: u64, k2: u64, v1: u64, v2: u64) -> Entry {
    Entry { k1, k2, v1, v2 }
}

fn empty_ledger() -> LedgerStore {
    LedgerStore {
        transaction_infos: vec![],
        transactions: vec![],
        transactions_by_account: vec![],
        transactions_by_hash: vec![],
        version_data: vec![],
        write_sets: vec![],
        events: vec![],
        epoch_by_version: vec![],
        ledger_infos: vec![],
        stale_state_value_indices: vec![],
        state_values: vec![],
        transaction_accumulator: vec![],
    }
}

fn empty_tree() -> TreeStore {
    TreeStore {
        nodes: vec![],
        stale_node_indices: vec![],
        stale_node_indices_cross_epoch: vec![],
    }
}

/// A well-formed ledger store at version `cur`: every version populated in
/// each per-version table, the given epoch boundaries with their per-epoch
/// records, the given (stale-since version, state key) staleness pairs with
/// their historical values, and an accumulator of exactly the frozen nodes
/// for `cur + 1` leaves.
fn build_ledger(cur: u64, epochs: &[(u64, u64)], stale_values: &[(u64, u64)]) -> LedgerStore {
    let mut l = empty_ledger();
    for v in 0..=cur {
        l.transaction_infos.push(e(v, 0, v + 7, 0));
        l.transactions.push(e(v, v % 5, v / 5, v + 500000));
        l.transactions_by_account.push(e(v % 5, v / 5, v, 0));
        l.transactions_by_hash.push(e(v + 500000, 0, v, 0));
        l.version_data.push(e(v, 0, v, 0));
        l.write_sets.push(e(v, 0, v + 13, 0));
        l.events.push(e(v, 0, v, 0));
        l.events.push(e(v, 1, v + 1, 0));
    }
    for &(bv, ep) in epochs {
        l.epoch_by_version.push(e(bv, 0, ep, 0));
        l.ledger_infos.push(e(ep, 0, bv, 0));
    }
    for &(sv, key) in stale_values {
        l.stale_state_value_indices.push(e(sv, key, 0, 0));
        l.state_values.push(e(key, sv, key + sv, 0));
    }
    let n = boundary_position(cur + 1);
    for p in 0..n {
        l.transaction_accumulator.push(e(p, 0, p ^ 0x55, 0));
    }
    l
}

/// A tree store with a root node at each version of `roots`, the given
/// extra (version, path word) non-root nodes, and staleness records whose
/// stale-since versions all lie on populated versions.
fn build_tree(roots: &[u64], extra_nodes: &[(u64, u64)], stales: &[(u64, u64)]) -> TreeStore {
    let mut t = empty_tree();
    for &v in roots {
        t.nodes.push(e(v, 0, v + 1000, 0));
    }
    for &(v, path) in extra_nodes {
        t.nodes.push(e(v, path, v + 2000, 0));
    }
    for &(sv, key) in stales {
        t.stale_node_indices.push(e(sv, key, 0, 0));
        t.stale_node_indices_cross_epoch.push(e(sv, key + 1, 0, 0));
    }
    t
}

fn assert_ledger_eq(a: &LedgerStore, b: &LedgerStore) {
    assert_eq!(a.transaction_infos, b.transaction_infos);
    assert_eq!(a.transactions, b.transactions);
    assert_eq!(a.transactions_by_account, b.transactions_by_account);
    assert_eq!(a.transactions_by_hash, b.transactions_by_hash);
    assert_eq!(a.version_data, b.version_data);
    assert_eq!(a.write_sets, b.write_sets);
    assert_eq!(a.events, b.events);
    assert_eq!(a.epoch_by_version, b.epoch_by_version);
    assert_eq!(a.ledger_infos, b.ledger_infos);
    assert_eq!(a.stale_state_value_indices, b.stale_state_value_indices);
    assert_eq!(a.state_values, b.state_values);
    assert_eq!(a.transaction_accumulator, b.transaction_accumulator);
}

fn assert_tree_eq(a: &TreeStore, b: &TreeStore) {
    assert_eq!(a.nodes, b.nodes);
    assert_eq!(a.stale_node_indices, b.stale_node_indices);
    assert_eq!(a.stale_node_indices_cross_epoch, b.stale_node_indices_cross_epoch);
}

#[test]
fn frozen_node_count_small_values() {
    assert_eq!(Cmd::num_frozen_nodes_in_accumulator(1), 1);
    assert_eq!(Cmd::num_frozen_nodes_in_accumulator(2), 3);
    assert_eq!(Cmd::num_frozen_nodes_in_accumulator(3), 4);
    assert_eq!(Cmd::num_frozen_nodes_in_accumulator(4), 7);
    assert_eq!(Cmd::num_frozen_nodes_in_accumulator(0), 0);
    // 501 = 0b111110101 has seven one bits
    assert_eq!(Cmd::num_frozen_nodes_in_accumulator(501), 2 * 501 - 7);
}

#[test]
fn boundary_position_matches_frozen_count() {
    assert_eq!(boundary_position(1), 1);
    assert_eq!(boundary_position(2), 3);
    assert_eq!(boundary_position(4), 7);
    assert_eq!(boundary_position(8), 15);
}

#[test]
fn closest_root_found_directly() {
    // roots only at {0, 50, 100}, epoch boundaries at {0, 75}
    let ledger = build_ledger(100, &[(0, 1), (75, 2)], &[]);
    let tree = build_tree(&[0, 50, 100], &[], &[]);
    assert_eq!(Cmd::find_tree_root_at_or_before(&ledger, &tree, 90), Some(50));
    assert_eq!(Cmd::find_tree_root_at_or_before(&ledger, &tree, 60), Some(50));
    assert_eq!(Cmd::find_tree_root_at_or_before(&ledger, &tree, 100), Some(100));
    assert_eq!(Cmd::find_tree_root_at_or_before(&ledger, &tree, 49), Some(0));
}

#[test]
fn closest_root_via_epoch_fallback() {
    // the closest node version to 90 is the rootless 80, so the search
    // falls back to the epoch boundary 75, where a root does exist
    let ledger = build_ledger(100, &[(0, 1), (75, 2)], &[]);
    let tree = build_tree(&[0, 50, 75], &[(80, 5)], &[]);
    assert_eq!(Cmd::find_tree_root_at_or_before(&ledger, &tree, 90), Some(75));
}

#[test]
fn closest_root_not_found() {
    // no root at the closest node version 80, none at the boundary 75 either
    let ledger = build_ledger(100, &[(0, 1), (75, 2)], &[]);
    let tree = build_tree(&[0, 50], &[(75, 3), (80, 5)], &[]);
    assert_eq!(Cmd::find_tree_root_at_or_before(&ledger, &tree, 90), None);
}

#[test]
fn target_beyond_ledger_version_is_fatal_and_mutates_nothing() {
    let ledger = build_ledger(100, &[(0, 1), (75, 2)], &[(90, 4)]);
    let tree = build_tree(&[0, 50, 100], &[], &[(50, 8)]);
    let mut l = build_ledger(100, &[(0, 1), (75, 2)], &[(90, 4)]);
    let mut t = build_tree(&[0, 50, 100], &[], &[(50, 8)]);
    let cmd = Cmd { target_version: 101, ledger_db_batch_size: 10 };
    assert_eq!(cmd.run(&mut l, &mut t), Err(TruncateError::TargetBeyondLedgerVersion));
    assert_ledger_eq(&l, &ledger);
    assert_tree_eq(&t, &tree);
}

#[test]
fn empty_store_is_fatal() {
    let mut l = empty_ledger();
    let mut t = build_tree(&[0], &[], &[]);
    let cmd = Cmd { target_version: 0, ledger_db_batch_size: 1 };
    assert_eq!(cmd.run(&mut l, &mut t), Err(TruncateError::EmptyStore));
    let mut l2 = build_ledger(5, &[], &[]);
    let mut t2 = empty_tree();
    let cmd2 = Cmd { target_version: 0, ledger_db_batch_size: 1 };
    assert_eq!(cmd2.run(&mut l2, &mut t2), Err(TruncateError::EmptyStore));
}

#[test]
fn no_tree_root_found_is_fatal_and_mutates_nothing() {
    // roots only above the target, and none at the epoch boundary 10
    let ledger = build_ledger(100, &[(10, 1)], &[]);
    let tree = build_tree(&[80, 100], &[(10, 3), (20, 4)], &[]);
    let mut l = build_ledger(100, &[(10, 1)], &[]);
    let mut t = build_tree(&[80, 100], &[(10, 3), (20, 4)], &[]);
    let cmd = Cmd { target_version: 40, ledger_db_batch_size: 7 };
    assert_eq!(cmd.run(&mut l, &mut t), Err(TruncateError::NoTreeRootFound));
    assert_ledger_eq(&l, &ledger);
    assert_tree_eq(&t, &tree);
}

#[test]
fn end_to_end_truncation_with_catch_up() {
    // ledger at version 500, tree roots at every multiple of 10,
    // epoch boundaries at 0 and 300, stale values on both sides of the target
    let roots: Vec<u64> = (0..=50).map(|i| i * 10).collect();
    let mut l = build_ledger(500, &[(0, 1), (300, 2)], &[(100, 9), (400, 9)]);
    let mut t = build_tree(&roots, &[(240, 3), (250, 4)], &[(240, 6), (250, 7)]);
    let cmd = Cmd { target_version: 245, ledger_db_batch_size: 50 };
    let outcome = cmd.run(&mut l, &mut t).unwrap();

    // the tree could only be truncated to the closest root, 240
    assert_eq!(outcome.tree_version, 240);
    assert_eq!(outcome.ledger_version, 245);
    assert_eq!(outcome.catch_up, Some(CatchUpRange { first: 241, last: 245 }));
    assert_eq!(Cmd::get_current_version_in_state_merkle_db(&t), Some(240));
    assert_eq!(Cmd::get_current_version_in_ledger_db(&l), Some(245));

    // ledger contents: everything above 245 is gone, everything else stays
    assert_eq!(l.transaction_infos.len(), 246);
    assert_eq!(l.transactions.len(), 246);
    assert_eq!(l.events.len(), 2 * 246);
    // the secondary indices lost exactly the deleted transactions' entries
    assert_eq!(l.transactions_by_account.len(), 246);
    assert!(l.transactions_by_account.iter().all(|x| x.v1 <= 245));
    assert_eq!(l.transactions_by_hash.len(), 246);
    assert!(l.transactions_by_hash.iter().all(|x| x.v1 <= 245));
    assert_eq!(l.epoch_by_version, vec![e(0, 0, 1, 0)]);
    assert_eq!(l.ledger_infos, vec![e(1, 0, 0, 0)]);
    assert_eq!(l.stale_state_value_indices, vec![e(100, 9, 0, 0)]);
    assert_eq!(l.state_values, vec![e(9, 100, 109, 0)]);
    assert_eq!(
        l.transaction_accumulator.len() as u64,
        Cmd::num_frozen_nodes_in_accumulator(246)
    );
    for (i, entry) in l.transaction_accumulator.iter().enumerate() {
        assert_eq!(entry.k1, i as u64);
    }

    // tree contents: nodes above 240 are gone, staleness records with them
    assert!(t.nodes.iter().all(|n| n.k1 <= 240));
    assert!(t.nodes.iter().any(|n| n.k1 == 240 && n.k2 == 0));
    assert_eq!(t.stale_node_indices, vec![e(240, 6, 0, 0)]);
    assert_eq!(t.stale_node_indices_cross_epoch, vec![e(240, 7, 0, 0)]);

    // the external catch-up routine replays versions 241..=245 and writes
    // the missing snapshots; afterwards both stores stand at the target
    for v in 241..=245u64 {
        t.nodes.push(e(v, 0, v + 1000, 0));
    }
    assert_eq!(Cmd::get_current_version_in_state_merkle_db(&t), Some(245));
}

#[test]
fn direct_hit_needs_no_catch_up() {
    let roots: Vec<u64> = (0..=50).map(|i| i * 10).collect();
    let mut l = build_ledger(500, &[(0, 1)], &[]);
    let mut t = build_tree(&roots, &[], &[]);
    let cmd = Cmd { target_version: 240, ledger_db_batch_size: 64 };
    let outcome = cmd.run(&mut l, &mut t).unwrap();
    assert_eq!(outcome.tree_version, 240);
    assert_eq!(outcome.ledger_version, 240);
    assert_eq!(outcome.catch_up, None);
}

#[test]
fn batch_size_independence() {
    let epochs = [(0, 1), (400, 2), (800, 3)];
    let stales = [(150, 3), (600, 3), (990, 5)];
    let roots: Vec<u64> = (0..=10).map(|i| i * 100).collect();
    let mut results: Vec<(LedgerStore, TreeStore)> = Vec::new();
    for &bs in &[1usize, 10, 1000] {
        let mut l = build_ledger(1000, &epochs, &stales);
        let mut t = build_tree(&roots, &[], &[(500, 2)]);
        let cmd = Cmd { target_version: 100, ledger_db_batch_size: bs };
        let outcome = cmd.run(&mut l, &mut t).unwrap();
        assert_eq!(outcome.ledger_version, 100);
        assert_eq!(outcome.tree_version, 100);
        assert_eq!(outcome.catch_up, None);
        results.push((l, t));
    }
    assert_ledger_eq(&results[0].0, &results[1].0);
    assert_ledger_eq(&results[0].0, &results[2].0);
    assert_tree_eq(&results[0].1, &results[1].1);
    assert_tree_eq(&results[0].1, &results[2].1);
}

#[test]
fn truncation_is_idempotent() {
    let roots: Vec<u64> = (0..=30).map(|i| i * 10).collect();
    let mut l = build_ledger(300, &[(0, 1), (120, 2)], &[(50, 2), (200, 2)]);
    let mut t = build_tree(&roots, &[(155, 9)], &[(150, 4)]);
    let cmd = Cmd { target_version: 150, ledger_db_batch_size: 17 };
    cmd.run(&mut l, &mut t).unwrap();
    let l_once = build_snapshot_ledger(&l);
    let t_once = build_snapshot_tree(&t);
    let again = Cmd { target_version: 150, ledger_db_batch_size: 17 };
    let outcome = again.run(&mut l, &mut t).unwrap();
    assert_eq!(outcome.ledger_version, 150);
    assert_eq!(outcome.tree_version, 150);
    assert_ledger_eq(&l, &l_once);
    assert_tree_eq(&t, &t_once);
}

fn build_snapshot_ledger(l: &LedgerStore) -> LedgerStore {
    LedgerStore {
        transaction_infos: l.transaction_infos.clone(),
        transactions: l.transactions.clone(),
        transactions_by_account: l.transactions_by_account.clone(),
        transactions_by_hash: l.transactions_by_hash.clone(),
        version_data: l.version_data.clone(),
        write_sets: l.write_sets.clone(),
        events: l.events.clone(),
        epoch_by_version: l.epoch_by_version.clone(),
        ledger_infos: l.ledger_infos.clone(),
        stale_state_value_indices: l.stale_state_value_indices.clone(),
        state_values: l.state_values.clone(),
        transaction_accumulator: l.transaction_accumulator.clone(),
    }
}

fn build_snapshot_tree(t: &TreeStore) -> TreeStore {
    TreeStore {
        nodes: t.nodes.clone(),
        stale_node_indices: t.stale_node_indices.clone(),
        stale_node_indices_cross_epoch: t.stale_node_indices_cross_epoch.clone(),
    }
}

#[test]
fn survivors_stay_within_the_horizon() {
    // the data-model invariant, checked on concrete contents after a run:
    // every surviving tree node is at or below the current tree version and
    // every surviving accumulator record below the boundary position
    let roots: Vec<u64> = (0..=40).map(|i| i * 5).collect();
    let mut l = build_ledger(200, &[(0, 1), (60, 2)], &[(30, 1), (170, 1)]);
    let mut t = build_tree(&roots, &[(63, 2)], &[(60, 3)]);
    let cmd = Cmd { target_version: 63, ledger_db_batch_size: 9 };
    let outcome = cmd.run(&mut l, &mut t).unwrap();
    let tree_version = Cmd::get_current_version_in_state_merkle_db(&t).unwrap();
    assert_eq!(tree_version, outcome.tree_version);
    assert!(t.nodes.iter().all(|n| n.k1 <= tree_version));
    let ledger_version = Cmd::get_current_version_in_ledger_db(&l).unwrap();
    let boundary = boundary_position(ledger_version + 1);
    assert!(l.transaction_accumulator.iter().all(|n| n.k1 < boundary));
}

#[test]
fn single_version_batches_truncate_the_tree_one_version_at_a_time() {
    // versions 7, 8, 9 each hold nodes; truncating to 7 must remove exactly
    // the records of 9 and then 8, staleness records included
    let mut t = build_tree(&[7, 8, 9], &[(8, 2), (9, 2)], &[(8, 5), (9, 6)]);
    Cmd::truncate_state_merkle_db(&mut t, 7);
    assert_eq!(t.nodes, vec![e(7, 0, 1007, 0)]);
    assert_eq!(t.stale_node_indices, Vec::<Entry>::new());
    assert_eq!(t.stale_node_indices_cross_epoch, Vec::<Entry>::new());
}
