//! The state-tree truncator: deletes tree nodes and their staleness
//! bookkeeping one version at a time, from the current tree version down to
//! a chosen target at which a root is known to exist.

use crate::cmd::Cmd;
use crate::store::{root_at, tree_truncated_to, wf_tree, TreeStore, VERSION_LIMIT};
use crate::table::{
    all_k1_le, is_max_k1, keep_le, lemma_drop_at_keep_le, lemma_keep_le_all,
    lemma_keep_le_contains, lemma_keep_le_keep_le, lemma_keep_le_shrink, max_k1, remove_k1_range,
    Entry,
};
use vstd::prelude::*;

verus! {

impl Cmd {
    /// Deletes every staleness record whose stale-since version is exactly
    /// `version`.  The caller guarantees that no record points past
    /// `version`, so the surviving records are exactly those below it.
    ///
    /// The two staleness tables (ordinary and cross-epoch) share this one
    /// routine.
    pub fn delete_stale_node_index_at_version(table: &mut Vec<Entry>, version: u64)
        requires
            1 <= version < u64::MAX,
            all_k1_le(old(table)@, version),
        ensures
            final(table)@ == keep_le(old(table)@, (version - 1) as u64),
    {
        proof {
            lemma_keep_le_all(old(table)@, version);
            lemma_drop_at_keep_le(old(table)@, version, version);
        }
        remove_k1_range(table, version, version + 1);
    }

    /// Deletes every tree node and staleness record with version above
    /// `target_version`, one version per atomic step, re-reading the current
    /// version from the store at each step.
    pub fn truncate_state_merkle_db(tree: &mut TreeStore, target_version: u64)
        requires
            wf_tree(*old(tree)),
            root_at(old(tree).nodes@, target_version),
        ensures
            tree_truncated_to(*old(tree), *final(tree), target_version),
            is_max_k1(final(tree).nodes@, target_version),
    {
        let ghost init = *old(tree);
        let ghost limit = (VERSION_LIMIT - 1) as u64;
        proof {
            assert forall|e: Entry| init.stale_node_indices@.contains(e) implies e.k1 <= limit by {
                let w = choose|w: Entry| init.nodes@.contains(w) && w.k1 == e.k1;
            }
            assert forall|e: Entry|
                init.stale_node_indices_cross_epoch@.contains(e) implies e.k1 <= limit by {
                let w = choose|w: Entry| init.nodes@.contains(w) && w.k1 == e.k1;
            }
            lemma_keep_le_all(init.nodes@, limit);
            lemma_keep_le_all(init.stale_node_indices@, limit);
            lemma_keep_le_all(init.stale_node_indices_cross_epoch@, limit);
            assert(init.nodes@.len() > 0) by {
                let w = choose|w: Entry|
                    init.nodes@.contains(w) && w.k1 == target_version && w.k2 == 0;
            }
        }
        let mut cur = max_k1(&tree.nodes).unwrap();
        let ghost mut c = limit;
        proof {
            let w = choose|w: Entry|
                init.nodes@.contains(w) && w.k1 == target_version && w.k2 == 0;
            assert(cur >= target_version);
        }
        while cur > target_version
            invariant
                init == *old(tree),
                wf_tree(init),
                root_at(init.nodes@, target_version),
                target_version <= cur <= c,
                c < VERSION_LIMIT,
                tree.nodes@ == keep_le(init.nodes@, c),
                tree.stale_node_indices@ == keep_le(init.stale_node_indices@, c),
                tree.stale_node_indices_cross_epoch@ == keep_le(
                    init.stale_node_indices_cross_epoch@,
                    c,
                ),
                is_max_k1(tree.nodes@, cur),
            decreases cur,
        {
            let ghost nodes_before = tree.nodes@;
            proof {
                // every surviving record, in all three tables, is at most `cur`
                assert forall|e: Entry|
                    init.nodes@.contains(e) && e.k1 <= c implies e.k1 <= cur by {
                    lemma_keep_le_contains(init.nodes@, c, e);
                }
                assert forall|e: Entry|
                    tree.stale_node_indices@.contains(e) implies e.k1 <= cur by {
                    lemma_keep_le_contains(init.stale_node_indices@, c, e);
                    let w = choose|w: Entry| init.nodes@.contains(w) && w.k1 == e.k1;
                }
                assert forall|e: Entry|
                    tree.stale_node_indices_cross_epoch@.contains(e) implies e.k1 <= cur by {
                    lemma_keep_le_contains(init.stale_node_indices_cross_epoch@, c, e);
                    let w = choose|w: Entry| init.nodes@.contains(w) && w.k1 == e.k1;
                }
                lemma_drop_at_keep_le(init.nodes@, c, cur);
                assert forall|e: Entry|
                    init.stale_node_indices@.contains(e) && e.k1 <= c implies e.k1 <= cur by {
                    let w = choose|w: Entry| init.nodes@.contains(w) && w.k1 == e.k1;
                    lemma_keep_le_contains(init.nodes@, c, w);
                }
                assert forall|e: Entry|
                    init.stale_node_indices_cross_epoch@.contains(e) && e.k1 <= c implies e.k1
                    <= cur by {
                    let w = choose|w: Entry| init.nodes@.contains(w) && w.k1 == e.k1;
                    lemma_keep_le_contains(init.nodes@, c, w);
                }
                lemma_keep_le_shrink(init.stale_node_indices@, c, cur);
                lemma_keep_le_shrink(init.stale_node_indices_cross_epoch@, c, cur);
            }
            remove_k1_range(&mut tree.nodes, cur, cur + 1);
            Self::delete_stale_node_index_at_version(&mut tree.stale_node_indices, cur);
            Self::delete_stale_node_index_at_version(
                &mut tree.stale_node_indices_cross_epoch,
                cur,
            );
            proof {
                lemma_keep_le_keep_le(init.stale_node_indices@, cur, (cur - 1) as u64);
                lemma_keep_le_keep_le(init.stale_node_indices_cross_epoch@, cur, (cur - 1) as u64);
                assert(tree.nodes@ == keep_le(init.nodes@, (cur - 1) as u64));
                assert(tree.nodes@.len() > 0) by {
                    let w = choose|w: Entry|
                        init.nodes@.contains(w) && w.k1 == target_version && w.k2 == 0;
                    lemma_keep_le_contains(init.nodes@, (cur - 1) as u64, w);
                }
            }
            let ghost c_next = (cur - 1) as u64;
            let next = max_k1(&tree.nodes).unwrap();
            proof {
                c = c_next;
                let w = choose|w: Entry|
                    init.nodes@.contains(w) && w.k1 == target_version && w.k2 == 0;
                lemma_keep_le_contains(init.nodes@, c, w);
                assert(next >= target_version);
                assert forall|e: Entry| tree.nodes@.contains(e) implies e.k1 <= c by {
                    lemma_keep_le_contains(init.nodes@, c, e);
                }
            }
            cur = next;
        }
        proof {
            assert forall|e: Entry| init.nodes@.contains(e) && e.k1 <= c implies e.k1
                <= target_version by {
                lemma_keep_le_contains(init.nodes@, c, e);
            }
            lemma_keep_le_shrink(init.nodes@, c, target_version);
            assert forall|e: Entry|
                init.stale_node_indices@.contains(e) && e.k1 <= c implies e.k1
                <= target_version by {
                let w = choose|w: Entry| init.nodes@.contains(w) && w.k1 == e.k1;
                lemma_keep_le_contains(init.nodes@, c, w);
            }
            lemma_keep_le_shrink(init.stale_node_indices@, c, target_version);
            assert forall|e: Entry|
                init.stale_node_indices_cross_epoch@.contains(e) && e.k1 <= c implies e.k1
                <= target_version by {
                let w = choose|w: Entry| init.nodes@.contains(w) && w.k1 == e.k1;
                lemma_keep_le_contains(init.nodes@, c, w);
            }
            lemma_keep_le_shrink(init.stale_node_indices_cross_epoch@, c, target_version);
        }
    }
}

} // verus!
