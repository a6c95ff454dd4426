//! The engine's global guarantees, stated over the truncation relations that
//! the truncators' contracts establish.

use crate::accumulator::{lemma_frozen_bounds, lemma_frozen_mono, spec_frozen};
use crate::store::{
    ledger_truncated_to, ledger_unchanged, root_at, tree_truncated_to, tree_unchanged,
    wf_ledger_at, wf_tree, LedgerStore, TreeStore, VERSION_LIMIT,
};
use crate::table::{
    account_match, epoch_match, has_k1, hash_match, is_max_k1, is_max_k1_le,
    lemma_drop_matched_above_id, lemma_keep_le_all, lemma_keep_le_contains, stale_match, Entry,
};
use vstd::prelude::*;

verus! {

/// Truncation is a function of the starting store and the target alone: two
/// runs from the same store to the same target leave identical contents,
/// whatever batch sizes they used.
pub proof fn lemma_ledger_truncation_deterministic(
    pre: LedgerStore,
    a: LedgerStore,
    b: LedgerStore,
    target: u64,
)
    requires
        ledger_truncated_to(pre, a, target),
        ledger_truncated_to(pre, b, target),
    ensures
        ledger_unchanged(a, b),
{
}

/// The tree truncation is equally a function of store and target alone.
pub proof fn lemma_tree_truncation_deterministic(
    pre: TreeStore,
    a: TreeStore,
    b: TreeStore,
    target: u64,
)
    requires
        tree_truncated_to(pre, a, target),
        tree_truncated_to(pre, b, target),
    ensures
        tree_unchanged(a, b),
{
}

/// Truncating a well-formed ledger store twice to the same target changes
/// nothing the second time.
pub proof fn lemma_ledger_truncation_idempotent(
    pre: LedgerStore,
    mid: LedgerStore,
    post: LedgerStore,
    cur: u64,
    target: u64,
)
    requires
        wf_ledger_at(pre, cur),
        target <= cur,
        ledger_truncated_to(pre, mid, target),
        ledger_truncated_to(mid, post, target),
    ensures
        ledger_unchanged(mid, post),
{
    assert forall|e: Entry| mid.transaction_infos@.contains(e) implies e.k1 <= target by {
        lemma_keep_le_contains(pre.transaction_infos@, target, e);
    }
    lemma_keep_le_all(mid.transaction_infos@, target);
    assert forall|e: Entry| mid.transactions@.contains(e) implies e.k1 <= target by {
        lemma_keep_le_contains(pre.transactions@, target, e);
    }
    lemma_keep_le_all(mid.transactions@, target);
    lemma_drop_matched_above_id(
        mid.transactions_by_account@,
        mid.transactions@,
        target,
        account_match(),
    );
    lemma_drop_matched_above_id(
        mid.transactions_by_hash@,
        mid.transactions@,
        target,
        hash_match(),
    );
    assert forall|e: Entry| mid.version_data@.contains(e) implies e.k1 <= target by {
        lemma_keep_le_contains(pre.version_data@, target, e);
    }
    lemma_keep_le_all(mid.version_data@, target);
    assert forall|e: Entry| mid.write_sets@.contains(e) implies e.k1 <= target by {
        lemma_keep_le_contains(pre.write_sets@, target, e);
    }
    lemma_keep_le_all(mid.write_sets@, target);
    assert forall|e: Entry| mid.events@.contains(e) implies e.k1 <= target by {
        lemma_keep_le_contains(pre.events@, target, e);
    }
    lemma_keep_le_all(mid.events@, target);
    assert forall|e: Entry| mid.epoch_by_version@.contains(e) implies e.k1 <= target by {
        lemma_keep_le_contains(pre.epoch_by_version@, target, e);
    }
    lemma_keep_le_all(mid.epoch_by_version@, target);
    assert forall|e: Entry| mid.stale_state_value_indices@.contains(e) implies e.k1 <= target by {
        lemma_keep_le_contains(pre.stale_state_value_indices@, target, e);
    }
    lemma_keep_le_all(mid.stale_state_value_indices@, target);
    lemma_drop_matched_above_id(mid.ledger_infos@, mid.epoch_by_version@, target, epoch_match());
    lemma_drop_matched_above_id(
        mid.state_values@,
        mid.stale_state_value_indices@,
        target,
        stale_match(),
    );
    lemma_frozen_mono((target + 1) as nat, (cur + 1) as nat);
    lemma_frozen_bounds((target + 1) as nat);
    assert(mid.transaction_accumulator@.len() == spec_frozen((target + 1) as nat));
    assert(mid.transaction_accumulator@.subrange(0, spec_frozen((target + 1) as nat))
        =~= mid.transaction_accumulator@);
}

/// Truncating a tree store twice to the same target changes nothing the
/// second time.
pub proof fn lemma_tree_truncation_idempotent(
    pre: TreeStore,
    mid: TreeStore,
    post: TreeStore,
    target: u64,
)
    requires
        tree_truncated_to(pre, mid, target),
        tree_truncated_to(mid, post, target),
    ensures
        tree_unchanged(mid, post),
{
    assert forall|e: Entry| mid.nodes@.contains(e) implies e.k1 <= target by {
        lemma_keep_le_contains(pre.nodes@, target, e);
    }
    lemma_keep_le_all(mid.nodes@, target);
    assert forall|e: Entry| mid.stale_node_indices@.contains(e) implies e.k1 <= target by {
        lemma_keep_le_contains(pre.stale_node_indices@, target, e);
    }
    lemma_keep_le_all(mid.stale_node_indices@, target);
    assert forall|e: Entry|
        mid.stale_node_indices_cross_epoch@.contains(e) implies e.k1 <= target by {
        lemma_keep_le_contains(pre.stale_node_indices_cross_epoch@, target, e);
    }
    lemma_keep_le_all(mid.stale_node_indices_cross_epoch@, target);
}

/// A truncated ledger store is well-formed again, at the target version.
/// Each batch of a run leaves the store in `ledger_truncated_to` form for
/// its own intermediate boundary, so this also covers a run interrupted
/// between batches.
pub proof fn lemma_ledger_truncation_preserves_wf(
    pre: LedgerStore,
    post: LedgerStore,
    cur: u64,
    target: u64,
)
    requires
        wf_ledger_at(pre, cur),
        target <= cur,
        ledger_truncated_to(pre, post, target),
    ensures
        wf_ledger_at(post, target),
{
    assert forall|v: u64| v <= target implies has_k1(post.transaction_infos@, v) by {
        assert(has_k1(pre.transaction_infos@, v));
        let w = choose|w: Entry| pre.transaction_infos@.contains(w) && w.k1 == v;
        lemma_keep_le_contains(pre.transaction_infos@, target, w);
        assert(post.transaction_infos@.contains(w));
    }
    assert forall|e: Entry| post.transaction_infos@.contains(e) implies e.k1 <= target by {
        lemma_keep_le_contains(pre.transaction_infos@, target, e);
    }
    assert forall|e: Entry| post.transactions@.contains(e) implies e.k1 <= target by {
        lemma_keep_le_contains(pre.transactions@, target, e);
    }
    assert forall|e: Entry| post.version_data@.contains(e) implies e.k1 <= target by {
        lemma_keep_le_contains(pre.version_data@, target, e);
    }
    assert forall|e: Entry| post.write_sets@.contains(e) implies e.k1 <= target by {
        lemma_keep_le_contains(pre.write_sets@, target, e);
    }
    assert forall|e: Entry| post.events@.contains(e) implies e.k1 <= target by {
        lemma_keep_le_contains(pre.events@, target, e);
    }
    assert forall|e: Entry| post.epoch_by_version@.contains(e) implies e.k1 <= target by {
        lemma_keep_le_contains(pre.epoch_by_version@, target, e);
    }
    assert forall|e: Entry| post.stale_state_value_indices@.contains(e) implies e.k1
        <= target by {
        lemma_keep_le_contains(pre.stale_state_value_indices@, target, e);
    }
    lemma_frozen_mono((target + 1) as nat, (cur + 1) as nat);
    lemma_frozen_bounds((target + 1) as nat);
    assert(post.transaction_accumulator@.len() == spec_frozen((target + 1) as nat));
    assert forall|i: int| 0 <= i < post.transaction_accumulator@.len() implies #[trigger] post
        .transaction_accumulator@[i].k1 == i by {
        assert(post.transaction_accumulator@[i] == pre.transaction_accumulator@[i]);
    }
}

/// A truncated tree store is well-formed again: no staleness record
/// survives without the version it points at.
pub proof fn lemma_tree_truncation_preserves_wf(pre: TreeStore, post: TreeStore, target: u64)
    requires
        wf_tree(pre),
        tree_truncated_to(pre, post, target),
    ensures
        wf_tree(post),
{
    assert forall|e: Entry| post.nodes@.contains(e) implies e.k1 <= (VERSION_LIMIT - 1) as u64 by {
        lemma_keep_le_contains(pre.nodes@, target, e);
    }
    assert forall|s: Entry| post.stale_node_indices@.contains(s) implies has_k1(
        post.nodes@,
        s.k1,
    ) by {
        lemma_keep_le_contains(pre.stale_node_indices@, target, s);
        let w = choose|w: Entry| pre.nodes@.contains(w) && w.k1 == s.k1;
        lemma_keep_le_contains(pre.nodes@, target, w);
        assert(post.nodes@.contains(w));
    }
    assert forall|s: Entry| post.stale_node_indices_cross_epoch@.contains(s) implies has_k1(
        post.nodes@,
        s.k1,
    ) by {
        lemma_keep_le_contains(pre.stale_node_indices_cross_epoch@, target, s);
        let w = choose|w: Entry| pre.nodes@.contains(w) && w.k1 == s.k1;
        lemma_keep_le_contains(pre.nodes@, target, w);
        assert(post.nodes@.contains(w));
    }
}

/// After a run that truncated the tree to `tt`, a second run at the same
/// target resolves the same tree target directly: `tt` is now the greatest
/// node version at or before the target, and its root survived.  Together
/// with the idempotence of the two truncations this makes a repeated run a
/// no-op from end to end.
pub proof fn lemma_second_run_resolves_same_target(
    pre: TreeStore,
    post: TreeStore,
    target: u64,
    tt: u64,
)
    requires
        tree_truncated_to(pre, post, tt),
        root_at(pre.nodes@, tt),
        tt <= target,
    ensures
        is_max_k1_le(post.nodes@, target, tt),
        root_at(post.nodes@, tt),
{
    let w = choose|w: Entry| pre.nodes@.contains(w) && w.k1 == tt && w.k2 == 0;
    lemma_keep_le_contains(pre.nodes@, tt, w);
    assert(post.nodes@.contains(w));
    assert forall|e: Entry| post.nodes@.contains(e) implies e.k1 <= tt by {
        lemma_keep_le_contains(pre.nodes@, tt, e);
    }
}

/// After a tree truncation, every surviving node's version is at most the
/// new current tree version, which is the target itself.
pub proof fn lemma_tree_nodes_within_horizon(pre: TreeStore, post: TreeStore, tt: u64)
    requires
        tree_truncated_to(pre, post, tt),
        root_at(pre.nodes@, tt),
    ensures
        is_max_k1(post.nodes@, tt),
        forall|e: Entry| post.nodes@.contains(e) ==> e.k1 <= tt,
{
    let w = choose|w: Entry| pre.nodes@.contains(w) && w.k1 == tt && w.k2 == 0;
    lemma_keep_le_contains(pre.nodes@, tt, w);
    assert(post.nodes@.contains(w));
    assert forall|e: Entry| post.nodes@.contains(e) implies e.k1 <= tt by {
        lemma_keep_le_contains(pre.nodes@, tt, e);
    }
}

/// After a ledger truncation, every surviving accumulator record sits below
/// the boundary position implied by the new current ledger version: its
/// postorder position is below the frozen-node count for `target + 1`
/// leaves.
pub proof fn lemma_accumulator_within_boundary(
    pre: LedgerStore,
    post: LedgerStore,
    cur: u64,
    target: u64,
)
    requires
        wf_ledger_at(pre, cur),
        target <= cur,
        ledger_truncated_to(pre, post, target),
    ensures
        forall|i: int|
            0 <= i < post.transaction_accumulator@.len() ==> (
            #[trigger] post.transaction_accumulator@[i].k1 as int) < spec_frozen(
                (target + 1) as nat,
            ),
{
    lemma_frozen_mono((target + 1) as nat, (cur + 1) as nat);
    lemma_frozen_bounds((target + 1) as nat);
    assert(post.transaction_accumulator@.len() == spec_frozen((target + 1) as nat));
    assert forall|i: int|
        0 <= i < post.transaction_accumulator@.len() implies (
    #[trigger] post.transaction_accumulator@[i].k1 as int) < spec_frozen(
        (target + 1) as nat,
    ) by {
        assert(post.transaction_accumulator@[i] == pre.transaction_accumulator@[i]);
        assert(pre.transaction_accumulator@[i].k1 == i);
    }
}

} // verus!
