//! The in-memory model of the two persistent stores.
//!
//! The ledger store holds the sequential per-version records, the secondary
//! transaction indices, the per-epoch metadata, the state-value history and
//! the transaction accumulator.  The tree store holds the authenticated
//! tree's node records and the staleness bookkeeping for them.  Keys that
//! are composite in the production layout (node paths, state keys, hashes)
//! are carried as plain words here: the truncation logic only ever compares
//! them for equality or reads their version component.

use crate::accumulator::spec_frozen;
use crate::table::{
    account_match, all_k1_le, drop_matched_above, epoch_match, has_k1, has_pair, hash_match,
    keep_le, stale_match, Entry,
};
use vstd::prelude::*;

verus! {

/// Versions are kept well below `u64::MAX` so that `version + 1` and the
/// frozen-node count `2 * (version + 1)` never overflow a word.
pub const VERSION_LIMIT: u64 = 0x4000_0000_0000_0000;

/// The sequential ledger store.
pub struct LedgerStore {
    /// Per-version transaction metadata; its greatest key is the current
    /// ledger version.  `k1` = version.
    pub transaction_infos: Vec<Entry>,
    /// Per-version transactions.  `k1` = version, `k2` = sending account,
    /// `v1` = sequence number, `v2` = hash.
    pub transactions: Vec<Entry>,
    /// Secondary index of transactions by sending account.  `k1` = account,
    /// `k2` = sequence number, `v1` = the version indexed.
    pub transactions_by_account: Vec<Entry>,
    /// Secondary index of transactions by hash.  `k1` = hash, `v1` = the
    /// version indexed.
    pub transactions_by_hash: Vec<Entry>,
    /// Per-version usage metadata.  `k1` = version.
    pub version_data: Vec<Entry>,
    /// Per-version write sets.  `k1` = version.
    pub write_sets: Vec<Entry>,
    /// Contract events.  `k1` = version, `k2` = index within the version.
    pub events: Vec<Entry>,
    /// Epoch boundaries: the first version of each epoch.  `k1` = boundary
    /// version, `v1` = epoch number.
    pub epoch_by_version: Vec<Entry>,
    /// Per-epoch consensus metadata.  `k1` = epoch number, `v1` = payload
    /// word.
    pub ledger_infos: Vec<Entry>,
    /// Staleness records for historical state values.  `k1` = stale-since
    /// version, `k2` = state key.
    pub stale_state_value_indices: Vec<Entry>,
    /// Historical state values.  `k1` = state key, `k2` = version at which
    /// the value went stale, `v1` = payload word.
    pub state_values: Vec<Entry>,
    /// Transaction accumulator nodes.  `k1` = postorder position, `v1` =
    /// node hash.
    pub transaction_accumulator: Vec<Entry>,
}

/// The authenticated state-tree store.
pub struct TreeStore {
    /// Tree node records.  `k1` = version, `k2` = a word encoding the path
    /// within the tree, with `0` for the empty path; the node with the empty
    /// path at a version is that version's root.  `v1` = node hash.
    pub nodes: Vec<Entry>,
    /// Staleness records for tree nodes: the version at which a node was
    /// superseded.  `k1` = stale-since version, `k2` = node key word.
    pub stale_node_indices: Vec<Entry>,
    /// The same records for nodes superseded across an epoch boundary.
    pub stale_node_indices_cross_epoch: Vec<Entry>,
}

/// A root node exists at version `v`: `v` is a materialized tree snapshot.
pub open spec fn root_at(nodes: Seq<Entry>, v: u64) -> bool {
    has_pair(nodes, v, 0)
}

/// Accumulator records occupy exactly the postorder positions
/// `0 .. len`, in order.
pub open spec fn acc_contiguous(s: Seq<Entry>) -> bool {
    forall|i: int| 0 <= i < s.len() ==> s[i].k1 == i
}

/// Every staleness record points at a version at which tree nodes exist.
pub open spec fn stale_covered(stale: Seq<Entry>, nodes: Seq<Entry>) -> bool {
    forall|s: Entry| stale.contains(s) ==> has_k1(nodes, s.k1)
}

/// Well-formedness of the ledger store whose current version is `cur`:
/// every version up to `cur` is populated, nothing beyond `cur` exists, and
/// the accumulator holds exactly the nodes frozen by `cur + 1` leaves.
pub open spec fn wf_ledger_at(l: LedgerStore, cur: u64) -> bool {
    &&& cur < VERSION_LIMIT
    &&& forall|v: u64| v <= cur ==> has_k1(l.transaction_infos@, v)
    &&& all_k1_le(l.transaction_infos@, cur)
    &&& all_k1_le(l.transactions@, cur)
    &&& all_k1_le(l.version_data@, cur)
    &&& all_k1_le(l.write_sets@, cur)
    &&& all_k1_le(l.events@, cur)
    &&& all_k1_le(l.epoch_by_version@, cur)
    &&& all_k1_le(l.stale_state_value_indices@, cur)
    &&& l.transaction_accumulator@.len() == spec_frozen((cur + 1) as nat)
    &&& acc_contiguous(l.transaction_accumulator@)
}

/// Well-formedness of the tree store: staleness records point at populated
/// versions, and versions stay below the arithmetic limit.
pub open spec fn wf_tree(t: TreeStore) -> bool {
    &&& all_k1_le(t.nodes@, (VERSION_LIMIT - 1) as u64)
    &&& stale_covered(t.stale_node_indices@, t.nodes@)
    &&& stale_covered(t.stale_node_indices_cross_epoch@, t.nodes@)
}

/// The tree store `post` is `pre` with everything above `target` deleted.
pub open spec fn tree_truncated_to(pre: TreeStore, post: TreeStore, target: u64) -> bool {
    &&& post.nodes@ == keep_le(pre.nodes@, target)
    &&& post.stale_node_indices@ == keep_le(pre.stale_node_indices@, target)
    &&& post.stale_node_indices_cross_epoch@ == keep_le(
        pre.stale_node_indices_cross_epoch@,
        target,
    )
}

/// The ledger store `post` is `pre` with everything above `target` deleted:
/// version-keyed records above `target` are gone; the secondary index
/// entries of a deleted transaction are gone; per-epoch metadata owned by a
/// deleted epoch boundary is gone; historical state values pointed at by a
/// deleted staleness record are gone; and the accumulator is cut back to
/// the prefix frozen by `target + 1` leaves.
pub open spec fn ledger_truncated_to(pre: LedgerStore, post: LedgerStore, target: u64) -> bool {
    &&& post.transaction_infos@ == keep_le(pre.transaction_infos@, target)
    &&& post.transactions@ == keep_le(pre.transactions@, target)
    &&& post.transactions_by_account@ == drop_matched_above(
        pre.transactions_by_account@,
        pre.transactions@,
        target,
        account_match(),
    )
    &&& post.transactions_by_hash@ == drop_matched_above(
        pre.transactions_by_hash@,
        pre.transactions@,
        target,
        hash_match(),
    )
    &&& post.version_data@ == keep_le(pre.version_data@, target)
    &&& post.write_sets@ == keep_le(pre.write_sets@, target)
    &&& post.events@ == keep_le(pre.events@, target)
    &&& post.epoch_by_version@ == keep_le(pre.epoch_by_version@, target)
    &&& post.ledger_infos@ == drop_matched_above(
        pre.ledger_infos@,
        pre.epoch_by_version@,
        target,
        epoch_match(),
    )
    &&& post.stale_state_value_indices@ == keep_le(pre.stale_state_value_indices@, target)
    &&& post.state_values@ == drop_matched_above(
        pre.state_values@,
        pre.stale_state_value_indices@,
        target,
        stale_match(),
    )
    &&& post.transaction_accumulator@ == pre.transaction_accumulator@.subrange(
        0,
        spec_frozen((target + 1) as nat),
    )
}

/// The ledger store's tables are untouched.
pub open spec fn ledger_unchanged(pre: LedgerStore, post: LedgerStore) -> bool {
    &&& post.transaction_infos@ == pre.transaction_infos@
    &&& post.transactions@ == pre.transactions@
    &&& post.transactions_by_account@ == pre.transactions_by_account@
    &&& post.transactions_by_hash@ == pre.transactions_by_hash@
    &&& post.version_data@ == pre.version_data@
    &&& post.write_sets@ == pre.write_sets@
    &&& post.events@ == pre.events@
    &&& post.epoch_by_version@ == pre.epoch_by_version@
    &&& post.ledger_infos@ == pre.ledger_infos@
    &&& post.stale_state_value_indices@ == pre.stale_state_value_indices@
    &&& post.state_values@ == pre.state_values@
    &&& post.transaction_accumulator@ == pre.transaction_accumulator@
}

/// The tree store's tables are untouched.
pub open spec fn tree_unchanged(pre: TreeStore, post: TreeStore) -> bool {
    &&& post.nodes@ == pre.nodes@
    &&& post.stale_node_indices@ == pre.stale_node_indices@
    &&& post.stale_node_indices_cross_epoch@ == pre.stale_node_indices_cross_epoch@
}

} // verus!
