//! The truncation command, its outcome and error types, and the
//! orchestrator that sequences the two truncators.

use crate::store::{
    ledger_truncated_to, ledger_unchanged, root_at, tree_truncated_to, tree_unchanged,
    wf_ledger_at, wf_tree, LedgerStore, TreeStore,
};
use crate::table::{has_k1_le, is_max_k1, is_max_k1_le};
use vstd::prelude::*;

verus! {

/// One truncation request: rewind both stores so that nothing beyond
/// `target_version` survives, deleting ledger data in batches of at most
/// `ledger_db_batch_size` versions.
pub struct Cmd {
    pub target_version: u64,
    pub ledger_db_batch_size: usize,
}

/// Why a run refused to start.  Every variant is detected before any
/// mutation is applied.
#[derive(Clone, Copy, Debug, PartialEq, Eq, Structural)]
pub enum TruncateError {
    /// A store holds no record from which a current version could be read.
    EmptyStore,
    /// The requested target lies beyond the current ledger version.
    TargetBeyondLedgerVersion,
    /// No tree root exists at or before the target, not even at an epoch
    /// boundary: the tree has been pruned past what is truncatable.
    NoTreeRootFound,
}

/// The versions still to be replayed by the external tree catch-up routine,
/// both ends inclusive.
#[derive(Clone, Copy, Debug, PartialEq, Eq, Structural)]
pub struct CatchUpRange {
    pub first: u64,
    pub last: u64,
}

/// What a successful run did, and what remains for the external catch-up
/// routine when the tree could only be truncated short of the target.
#[derive(Clone, Copy, Debug, PartialEq, Eq)]
pub struct TruncateOutcome {
    pub ledger_version: u64,
    pub tree_version: u64,
    pub catch_up: Option<CatchUpRange>,
}

/// The engine got past its precondition checks: both stores are populated
/// and the target does not exceed the current ledger version.
pub open spec fn run_started(l: LedgerStore, t: TreeStore, target: u64) -> bool {
    &&& l.transaction_infos@.len() != 0
    &&& t.nodes@.len() != 0
    &&& forall|lv: u64| is_max_k1(l.transaction_infos@, lv) ==> target <= lv
}

/// A successful run with tree target `tt`: the tree holds exactly the
/// records at or below `tt`, the ledger exactly those at or below the
/// requested target, and the outcome reports both new current versions and
/// the catch-up range still owed when the tree stopped short of the target.
pub open spec fn run_ok_at(
    pre_l: LedgerStore,
    post_l: LedgerStore,
    pre_t: TreeStore,
    post_t: TreeStore,
    target: u64,
    tt: u64,
    r: Result<TruncateOutcome, TruncateError>,
) -> bool {
    &&& match r {
        Ok(o) => {
            &&& o.ledger_version == target
            &&& o.tree_version == tt
            &&& o.catch_up == (if tt < target {
                Some(CatchUpRange { first: (tt + 1) as u64, last: target })
            } else {
                None::<CatchUpRange>
            })
        },
        Err(_) => false,
    }
    &&& tree_truncated_to(pre_t, post_t, tt)
    &&& ledger_truncated_to(pre_l, post_l, target)
    &&& is_max_k1(post_t.nodes@, tt)
    &&& is_max_k1(post_l.transaction_infos@, target)
}

impl Cmd {
    /// Runs the truncation: discovers both current versions, checks the
    /// preconditions, truncates the tree to the closest root at or before
    /// the target, then truncates the ledger to the target itself.  Every
    /// error is detected before any record is deleted.
    ///
    /// When the tree could only be truncated to an earlier version than the
    /// target, the outcome carries the version range that the external tree
    /// catch-up routine must replay; on a direct hit it carries none.
    pub fn run(self, ledger: &mut LedgerStore, tree: &mut TreeStore) -> (r: Result<
        TruncateOutcome,
        TruncateError,
    >)
        requires
            self.ledger_db_batch_size >= 1,
            forall|lv: u64|
                is_max_k1(old(ledger).transaction_infos@, lv) ==> wf_ledger_at(*old(ledger), lv),
            wf_tree(*old(tree)),
            forall|lv: u64, tv: u64|
                is_max_k1(old(ledger).transaction_infos@, lv) && is_max_k1(old(tree).nodes@, tv)
                    ==> tv <= lv,
        ensures
            (old(ledger).transaction_infos@.len() == 0 || old(tree).nodes@.len() == 0) <==> r
                == Err::<TruncateOutcome, TruncateError>(TruncateError::EmptyStore),
            forall|lv: u64|
                old(tree).nodes@.len() != 0 && is_max_k1(old(ledger).transaction_infos@, lv)
                    ==> (r == Err::<TruncateOutcome, TruncateError>(
                    TruncateError::TargetBeyondLedgerVersion,
                ) <==> self.target_version > lv),
            r is Err ==> ledger_unchanged(*old(ledger), *final(ledger)) && tree_unchanged(
                *old(tree),
                *final(tree),
            ),
            run_started(*old(ledger), *old(tree), self.target_version) && !has_k1_le(
                old(tree).nodes@,
                self.target_version,
            ) ==> r == Err::<TruncateOutcome, TruncateError>(TruncateError::NoTreeRootFound),
            forall|cv: u64|
                run_started(*old(ledger), *old(tree), self.target_version) && is_max_k1_le(
                    old(tree).nodes@,
                    self.target_version,
                    cv,
                ) && root_at(old(tree).nodes@, cv) ==> run_ok_at(
                    *old(ledger),
                    *final(ledger),
                    *old(tree),
                    *final(tree),
                    self.target_version,
                    cv,
                    r,
                ),
            forall|cv: u64|
                run_started(*old(ledger), *old(tree), self.target_version) && is_max_k1_le(
                    old(tree).nodes@,
                    self.target_version,
                    cv,
                ) && !root_at(old(tree).nodes@, cv) && !has_k1_le(
                    old(ledger).epoch_by_version@,
                    self.target_version,
                ) ==> r == Err::<TruncateOutcome, TruncateError>(TruncateError::NoTreeRootFound),
            forall|cv: u64, bv: u64|
                run_started(*old(ledger), *old(tree), self.target_version) && is_max_k1_le(
                    old(tree).nodes@,
                    self.target_version,
                    cv,
                ) && !root_at(old(tree).nodes@, cv) && is_max_k1_le(
                    old(ledger).epoch_by_version@,
                    self.target_version,
                    bv,
                ) ==> (if root_at(old(tree).nodes@, bv) {
                    run_ok_at(
                        *old(ledger),
                        *final(ledger),
                        *old(tree),
                        *final(tree),
                        self.target_version,
                        bv,
                        r,
                    )
                } else {
                    r == Err::<TruncateOutcome, TruncateError>(TruncateError::NoTreeRootFound)
                }),
    {
        let ledger_db_version = match Self::get_current_version_in_ledger_db(ledger) {
            Some(v) => v,
            None => {
                return Err(TruncateError::EmptyStore);
            },
        };
        let state_merkle_db_version = match Self::get_current_version_in_state_merkle_db(tree) {
            Some(v) => v,
            None => {
                return Err(TruncateError::EmptyStore);
            },
        };
        assert(state_merkle_db_version <= ledger_db_version);
        if self.target_version > ledger_db_version {
            return Err(TruncateError::TargetBeyondLedgerVersion);
        }
        let state_merkle_target_version = match Self::find_tree_root_at_or_before(
            ledger,
            tree,
            self.target_version,
        ) {
            Some(v) => v,
            None => {
                return Err(TruncateError::NoTreeRootFound);
            },
        };
        Self::truncate_state_merkle_db(tree, state_merkle_target_version);
        Self::truncate_ledger_db(
            ledger,
            ledger_db_version,
            self.target_version,
            self.ledger_db_batch_size,
        );
        let catch_up = if state_merkle_target_version < self.target_version {
            Some(
                CatchUpRange {
                    first: state_merkle_target_version + 1,
                    last: self.target_version,
                },
            )
        } else {
            None
        };
        Ok(
            TruncateOutcome {
                ledger_version: self.target_version,
                tree_version: state_merkle_target_version,
                catch_up,
            },
        )
    }
}

} // verus!
