//! The version locator: where each store currently stands, and the closest
//! usable tree snapshot at or before a requested version.

use crate::cmd::Cmd;
use crate::store::{root_at, LedgerStore, TreeStore};
use crate::table::{
    has_k1_le, is_max_k1, is_max_k1_le, lemma_max_k1_le_unique, max_k1, max_k1_le, contains_pair,
    Entry,
};
use vstd::prelude::*;

verus! {

/// What `find_tree_root_at_or_before` answers for a request at `version`,
/// given the tree's node table and the ledger's epoch-boundary table.
///
/// The greatest node version at or before `version` is the first candidate;
/// if no root stands there, the greatest epoch boundary at or before
/// `version` is the single fallback candidate; a candidate is the answer
/// exactly when a root stands at it.
pub open spec fn found_root_spec(
    nodes: Seq<Entry>,
    epochs: Seq<Entry>,
    version: u64,
    r: Option<u64>,
) -> bool {
    &&& (!has_k1_le(nodes, version) ==> r is None)
    &&& (forall|cv: u64|
        is_max_k1_le(nodes, version, cv) && root_at(nodes, cv) ==> r == Some(cv))
    &&& (forall|cv: u64|
        is_max_k1_le(nodes, version, cv) && !root_at(nodes, cv) && !has_k1_le(epochs, version)
            ==> r is None)
    &&& (forall|cv: u64, bv: u64|
        is_max_k1_le(nodes, version, cv) && !root_at(nodes, cv) && is_max_k1_le(
            epochs,
            version,
            bv,
        ) ==> r == (if root_at(nodes, bv) {
            Some(bv)
        } else {
            None::<u64>
        }))
}

impl Cmd {
    /// The current ledger version: the greatest key of the per-version
    /// transaction-metadata table.  `None` on an empty store.
    pub fn get_current_version_in_ledger_db(ledger: &LedgerStore) -> (r: Option<u64>)
        ensures
            match r {
                Some(m) => is_max_k1(ledger.transaction_infos@, m),
                None => ledger.transaction_infos@.len() == 0,
            },
    {
        max_k1(&ledger.transaction_infos)
    }

    /// The current tree version: the greatest version at which any tree
    /// node exists.  `None` on an empty store.
    pub fn get_current_version_in_state_merkle_db(tree: &TreeStore) -> (r: Option<u64>)
        ensures
            match r {
                Some(m) => is_max_k1(tree.nodes@, m),
                None => tree.nodes@.len() == 0,
            },
    {
        max_k1(&tree.nodes)
    }

    /// Whether a tree root (a node with the empty path) exists at `version`.
    pub fn root_exist_at_version(tree: &TreeStore, version: u64) -> (r: bool)
        ensures
            r == root_at(tree.nodes@, version),
    {
        contains_pair(&tree.nodes, version, 0)
    }

    /// The greatest version at or before `version` at which any tree node
    /// exists.
    pub fn find_closest_node_version_at_or_before(tree: &TreeStore, version: u64) -> (r: Option<
        u64,
    >)
        ensures
            match r {
                Some(m) => is_max_k1_le(tree.nodes@, version, m),
                None => !has_k1_le(tree.nodes@, version),
            },
    {
        max_k1_le(&tree.nodes, version)
    }

    /// The greatest version at or before `version` at which a tree root
    /// exists, looked for first at the closest node version and then, as the
    /// single fallback, at the closest epoch boundary.
    pub fn find_tree_root_at_or_before(
        ledger: &LedgerStore,
        tree: &TreeStore,
        version: u64,
    ) -> (r: Option<u64>)
        ensures
            found_root_spec(tree.nodes@, ledger.epoch_by_version@, version, r),
            match r {
                Some(v) => root_at(tree.nodes@, v) && v <= version,
                None => true,
            },
    {
        match Self::find_closest_node_version_at_or_before(tree, version) {
            Some(closest_version) => {
                if Self::root_exist_at_version(tree, closest_version) {
                    proof {
                        assert forall|cv: u64| is_max_k1_le(tree.nodes@, version, cv) implies cv
                            == closest_version by {
                            lemma_max_k1_le_unique(tree.nodes@, version, cv, closest_version);
                        }
                    }
                    Some(closest_version)
                } else {
                    let fallback = match max_k1_le(&ledger.epoch_by_version, version) {
                        Some(closest_epoch_version) => {
                            if Self::root_exist_at_version(tree, closest_epoch_version) {
                                proof {
                                    assert forall|bv: u64| is_max_k1_le(
                                        ledger.epoch_by_version@,
                                        version,
                                        bv,
                                    ) implies bv == closest_epoch_version by {
                                        lemma_max_k1_le_unique(
                                            ledger.epoch_by_version@,
                                            version,
                                            bv,
                                            closest_epoch_version,
                                        );
                                    }
                                }
                                Some(closest_epoch_version)
                            } else {
                                proof {
                                    assert forall|bv: u64| is_max_k1_le(
                                        ledger.epoch_by_version@,
                                        version,
                                        bv,
                                    ) implies bv == closest_epoch_version by {
                                        lemma_max_k1_le_unique(
                                            ledger.epoch_by_version@,
                                            version,
                                            bv,
                                            closest_epoch_version,
                                        );
                                    }
                                }
                                None
                            }
                        },
                        None => None,
                    };
                    proof {
                        assert forall|cv: u64| is_max_k1_le(tree.nodes@, version, cv) implies cv
                            == closest_version by {
                            lemma_max_k1_le_unique(tree.nodes@, version, cv, closest_version);
                        }
                    }
                    fallback
                }
            },
            None => None,
        }
    }
}

} // verus!
