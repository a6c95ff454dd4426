//! The ledger truncator: deletes all ledger-store records above the target
//! version in bounded, descending version-range batches.

use crate::accumulator::{lemma_frozen_bounds, lemma_frozen_mono, spec_frozen};
use crate::cmd::Cmd;
use crate::store::{
    acc_contiguous, ledger_truncated_to, wf_ledger_at, LedgerStore, VERSION_LIMIT,
};
use crate::table::{
    account_match, all_k1_le, collect_k1_range, drop_matched, drop_matched_in_range, drop_range,
    epoch_match, has_k1, hash_match, is_max_k1, keep_le, lemma_cross_compose,
    lemma_drop_matched_empty, lemma_drop_matched_equiv, lemma_drop_matched_in_range_empty,
    lemma_drop_matched_push_sel, lemma_drop_range_keep_le, lemma_keep_le_all,
    lemma_keep_le_contains, lemma_range_to_above, lemma_take_range_contains,
    remove_account_target, remove_epoch_target, remove_hash_target, remove_k1_range,
    remove_stale_target, stale_match, take_range, Entry,
};
use vstd::prelude::*;

verus! {

impl Cmd {
    /// Reads every transaction in `[start_version, end_version)` and
    /// removes its by-account and by-hash secondary index entries.
    pub fn delete_transaction_index_data(
        ledger: &mut LedgerStore,
        start_version: u64,
        end_version: u64,
    )
        ensures
            final(ledger).transactions_by_account@ == drop_matched_in_range(
                old(ledger).transactions_by_account@,
                old(ledger).transactions@,
                start_version,
                end_version,
                account_match(),
            ),
            final(ledger).transactions_by_hash@ == drop_matched_in_range(
                old(ledger).transactions_by_hash@,
                old(ledger).transactions@,
                start_version,
                end_version,
                hash_match(),
            ),
            final(ledger).transaction_infos@ == old(ledger).transaction_infos@,
            final(ledger).transactions@ == old(ledger).transactions@,
            final(ledger).version_data@ == old(ledger).version_data@,
            final(ledger).write_sets@ == old(ledger).write_sets@,
            final(ledger).events@ == old(ledger).events@,
            final(ledger).epoch_by_version@ == old(ledger).epoch_by_version@,
            final(ledger).ledger_infos@ == old(ledger).ledger_infos@,
            final(ledger).stale_state_value_indices@ == old(ledger).stale_state_value_indices@,
            final(ledger).state_values@ == old(ledger).state_values@,
            final(ledger).transaction_accumulator@ == old(ledger).transaction_accumulator@,
    {
        let ghost tx0 = old(ledger).transactions@;
        let ghost ba0 = old(ledger).transactions_by_account@;
        let ghost bh0 = old(ledger).transactions_by_hash@;
        let transactions = collect_k1_range(&ledger.transactions, start_version, end_version);
        proof {
            lemma_drop_matched_empty(ba0, account_match());
            lemma_drop_matched_empty(bh0, hash_match());
            assert(transactions@.take(0) =~= Seq::<Entry>::empty());
        }
        let mut j: usize = 0;
        while j < transactions.len()
            invariant
                0 <= j <= transactions@.len(),
                transactions@ == take_range(tx0, start_version, end_version),
                ledger.transactions_by_account@ == drop_matched(
                    ba0,
                    transactions@.take(j as int),
                    account_match(),
                ),
                ledger.transactions_by_hash@ == drop_matched(
                    bh0,
                    transactions@.take(j as int),
                    hash_match(),
                ),
                ledger.transaction_infos@ == old(ledger).transaction_infos@,
                ledger.transactions@ == old(ledger).transactions@,
                ledger.version_data@ == old(ledger).version_data@,
                ledger.write_sets@ == old(ledger).write_sets@,
                ledger.events@ == old(ledger).events@,
                ledger.epoch_by_version@ == old(ledger).epoch_by_version@,
                ledger.ledger_infos@ == old(ledger).ledger_infos@,
                ledger.stale_state_value_indices@ == old(ledger).stale_state_value_indices@,
                ledger.state_values@ == old(ledger).state_values@,
                ledger.transaction_accumulator@ == old(ledger).transaction_accumulator@,
            decreases transactions@.len() - j,
        {
            let b = transactions[j];
            proof {
                assert(transactions@.take(j as int).push(b) =~= transactions@.take(
                    j as int + 1,
                ));
                lemma_drop_matched_push_sel(
                    ba0,
                    transactions@.take(j as int),
                    b,
                    account_match(),
                );
                lemma_drop_matched_push_sel(bh0, transactions@.take(j as int), b, hash_match());
            }
            remove_account_target(&mut ledger.transactions_by_account, b);
            remove_hash_target(&mut ledger.transactions_by_hash, b);
            j = j + 1;
        }
        proof {
            assert(transactions@.take(transactions@.len() as int) =~= transactions@);
            assert forall|b: Entry| #[trigger] transactions@.contains(b) <==> (tx0.contains(b)
                && start_version <= b.k1 < end_version) by {
                lemma_take_range_contains(tx0, start_version, end_version, b);
            }
            lemma_drop_matched_equiv(
                ba0,
                transactions@,
                tx0,
                start_version,
                end_version,
                account_match(),
            );
            lemma_drop_matched_equiv(
                bh0,
                transactions@,
                tx0,
                start_version,
                end_version,
                hash_match(),
            );
        }
    }

    /// Removes every epoch boundary in `[start_version, end_version)`
    /// together with the per-epoch record its epoch number owns.  A
    /// boundary at or past `end_version` would mean a corrupt index, so the
    /// caller rules it out.
    pub fn delete_per_epoch_data(ledger: &mut LedgerStore, start_version: u64, end_version: u64)
        requires
            end_version >= 1,
            all_k1_le(old(ledger).epoch_by_version@, (end_version - 1) as u64),
        ensures
            final(ledger).epoch_by_version@ == drop_range(
                old(ledger).epoch_by_version@,
                start_version,
                end_version,
            ),
            final(ledger).ledger_infos@ == drop_matched_in_range(
                old(ledger).ledger_infos@,
                old(ledger).epoch_by_version@,
                start_version,
                end_version,
                epoch_match(),
            ),
            final(ledger).transaction_infos@ == old(ledger).transaction_infos@,
            final(ledger).transactions@ == old(ledger).transactions@,
            final(ledger).transactions_by_account@ == old(ledger).transactions_by_account@,
            final(ledger).transactions_by_hash@ == old(ledger).transactions_by_hash@,
            final(ledger).version_data@ == old(ledger).version_data@,
            final(ledger).write_sets@ == old(ledger).write_sets@,
            final(ledger).events@ == old(ledger).events@,
            final(ledger).stale_state_value_indices@ == old(ledger).stale_state_value_indices@,
            final(ledger).state_values@ == old(ledger).state_values@,
            final(ledger).transaction_accumulator@ == old(ledger).transaction_accumulator@,
    {
        let ghost eb0 = old(ledger).epoch_by_version@;
        let ghost li0 = old(ledger).ledger_infos@;
        let boundaries = collect_k1_range(&ledger.epoch_by_version, start_version, end_version);
        remove_k1_range(&mut ledger.epoch_by_version, start_version, end_version);
        proof {
            lemma_drop_matched_empty(li0, epoch_match());
            assert(boundaries@.take(0) =~= Seq::<Entry>::empty());
        }
        let mut j: usize = 0;
        while j < boundaries.len()
            invariant
                0 <= j <= boundaries@.len(),
                boundaries@ == take_range(eb0, start_version, end_version),
                ledger.ledger_infos@ == drop_matched(
                    li0,
                    boundaries@.take(j as int),
                    epoch_match(),
                ),
                ledger.epoch_by_version@ == drop_range(eb0, start_version, end_version),
                ledger.transaction_infos@ == old(ledger).transaction_infos@,
                ledger.transactions@ == old(ledger).transactions@,
                ledger.transactions_by_account@ == old(ledger).transactions_by_account@,
                ledger.transactions_by_hash@ == old(ledger).transactions_by_hash@,
                ledger.version_data@ == old(ledger).version_data@,
                ledger.write_sets@ == old(ledger).write_sets@,
                ledger.events@ == old(ledger).events@,
                ledger.stale_state_value_indices@ == old(ledger).stale_state_value_indices@,
                ledger.state_values@ == old(ledger).state_values@,
                ledger.transaction_accumulator@ == old(ledger).transaction_accumulator@,
            decreases boundaries@.len() - j,
        {
            let b = boundaries[j];
            proof {
                assert(boundaries@.take(j as int).push(b) =~= boundaries@.take(j as int + 1));
                lemma_drop_matched_push_sel(li0, boundaries@.take(j as int), b, epoch_match());
            }
            remove_epoch_target(&mut ledger.ledger_infos, b);
            j = j + 1;
        }
        proof {
            assert(boundaries@.take(boundaries@.len() as int) =~= boundaries@);
            assert forall|b: Entry| #[trigger] boundaries@.contains(b) <==> (eb0.contains(b)
                && start_version <= b.k1 < end_version) by {
                lemma_take_range_contains(eb0, start_version, end_version, b);
            }
            lemma_drop_matched_equiv(
                li0,
                boundaries@,
                eb0,
                start_version,
                end_version,
                epoch_match(),
            );
        }
    }

    /// Removes the per-version records — transaction metadata, transaction,
    /// usage metadata and write set — for every version in
    /// `[start_version, end_version)`.
    pub fn delete_per_version_data(
        ledger: &mut LedgerStore,
        start_version: u64,
        end_version: u64,
    )
        ensures
            final(ledger).transaction_infos@ == drop_range(
                old(ledger).transaction_infos@,
                start_version,
                end_version,
            ),
            final(ledger).transactions@ == drop_range(
                old(ledger).transactions@,
                start_version,
                end_version,
            ),
            final(ledger).version_data@ == drop_range(
                old(ledger).version_data@,
                start_version,
                end_version,
            ),
            final(ledger).write_sets@ == drop_range(
                old(ledger).write_sets@,
                start_version,
                end_version,
            ),
            final(ledger).transactions_by_account@ == old(ledger).transactions_by_account@,
            final(ledger).transactions_by_hash@ == old(ledger).transactions_by_hash@,
            final(ledger).events@ == old(ledger).events@,
            final(ledger).epoch_by_version@ == old(ledger).epoch_by_version@,
            final(ledger).ledger_infos@ == old(ledger).ledger_infos@,
            final(ledger).stale_state_value_indices@ == old(ledger).stale_state_value_indices@,
            final(ledger).state_values@ == old(ledger).state_values@,
            final(ledger).transaction_accumulator@ == old(ledger).transaction_accumulator@,
    {
        remove_k1_range(&mut ledger.transaction_infos, start_version, end_version);
        remove_k1_range(&mut ledger.transactions, start_version, end_version);
        remove_k1_range(&mut ledger.version_data, start_version, end_version);
        remove_k1_range(&mut ledger.write_sets, start_version, end_version);
    }

    /// Removes every stale-state-value index record whose stale-since
    /// version lies in `[start_version, end_version)`, together with the
    /// historical value each one points at.  An index at or past
    /// `end_version` would mean a corrupt index, so the caller rules it out.
    pub fn delete_state_value_and_index(
        ledger: &mut LedgerStore,
        start_version: u64,
        end_version: u64,
    )
        requires
            end_version >= 1,
            all_k1_le(old(ledger).stale_state_value_indices@, (end_version - 1) as u64),
        ensures
            final(ledger).stale_state_value_indices@ == drop_range(
                old(ledger).stale_state_value_indices@,
                start_version,
                end_version,
            ),
            final(ledger).state_values@ == drop_matched_in_range(
                old(ledger).state_values@,
                old(ledger).stale_state_value_indices@,
                start_version,
                end_version,
                stale_match(),
            ),
            final(ledger).transaction_infos@ == old(ledger).transaction_infos@,
            final(ledger).transactions@ == old(ledger).transactions@,
            final(ledger).transactions_by_account@ == old(ledger).transactions_by_account@,
            final(ledger).transactions_by_hash@ == old(ledger).transactions_by_hash@,
            final(ledger).version_data@ == old(ledger).version_data@,
            final(ledger).write_sets@ == old(ledger).write_sets@,
            final(ledger).events@ == old(ledger).events@,
            final(ledger).epoch_by_version@ == old(ledger).epoch_by_version@,
            final(ledger).ledger_infos@ == old(ledger).ledger_infos@,
            final(ledger).transaction_accumulator@ == old(ledger).transaction_accumulator@,
    {
        let ghost si0 = old(ledger).stale_state_value_indices@;
        let ghost sv0 = old(ledger).state_values@;
        let indices = collect_k1_range(
            &ledger.stale_state_value_indices,
            start_version,
            end_version,
        );
        remove_k1_range(&mut ledger.stale_state_value_indices, start_version, end_version);
        proof {
            lemma_drop_matched_empty(sv0, stale_match());
            assert(indices@.take(0) =~= Seq::<Entry>::empty());
        }
        let mut j: usize = 0;
        while j < indices.len()
            invariant
                0 <= j <= indices@.len(),
                indices@ == take_range(si0, start_version, end_version),
                ledger.state_values@ == drop_matched(sv0, indices@.take(j as int), stale_match()),
                ledger.stale_state_value_indices@ == drop_range(si0, start_version, end_version),
                ledger.transaction_infos@ == old(ledger).transaction_infos@,
                ledger.transactions@ == old(ledger).transactions@,
                ledger.transactions_by_account@ == old(ledger).transactions_by_account@,
                ledger.transactions_by_hash@ == old(ledger).transactions_by_hash@,
                ledger.version_data@ == old(ledger).version_data@,
                ledger.write_sets@ == old(ledger).write_sets@,
                ledger.events@ == old(ledger).events@,
                ledger.epoch_by_version@ == old(ledger).epoch_by_version@,
                ledger.ledger_infos@ == old(ledger).ledger_infos@,
                ledger.transaction_accumulator@ == old(ledger).transaction_accumulator@,
            decreases indices@.len() - j,
        {
            let b = indices[j];
            proof {
                assert(indices@.take(j as int).push(b) =~= indices@.take(j as int + 1));
                lemma_drop_matched_push_sel(sv0, indices@.take(j as int), b, stale_match());
            }
            remove_stale_target(&mut ledger.state_values, b);
            j = j + 1;
        }
        proof {
            assert(indices@.take(indices@.len() as int) =~= indices@);
            assert forall|b: Entry| #[trigger] indices@.contains(b) <==> (si0.contains(b)
                && start_version <= b.k1 < end_version) by {
                lemma_take_range_contains(si0, start_version, end_version, b);
            }
            lemma_drop_matched_equiv(
                sv0,
                indices@,
                si0,
                start_version,
                end_version,
                stale_match(),
            );
        }
    }

    /// Removes every event record for versions in
    /// `[start_version, end_version)`.
    pub fn prune_events(ledger: &mut LedgerStore, start_version: u64, end_version: u64)
        ensures
            final(ledger).events@ == drop_range(old(ledger).events@, start_version, end_version),
            final(ledger).transaction_infos@ == old(ledger).transaction_infos@,
            final(ledger).transactions@ == old(ledger).transactions@,
            final(ledger).transactions_by_account@ == old(ledger).transactions_by_account@,
            final(ledger).transactions_by_hash@ == old(ledger).transactions_by_hash@,
            final(ledger).version_data@ == old(ledger).version_data@,
            final(ledger).write_sets@ == old(ledger).write_sets@,
            final(ledger).epoch_by_version@ == old(ledger).epoch_by_version@,
            final(ledger).ledger_infos@ == old(ledger).ledger_infos@,
            final(ledger).stale_state_value_indices@ == old(ledger).stale_state_value_indices@,
            final(ledger).state_values@ == old(ledger).state_values@,
            final(ledger).transaction_accumulator@ == old(ledger).transaction_accumulator@,
    {
        remove_k1_range(&mut ledger.events, start_version, end_version);
    }

    /// Cuts the accumulator back from the `end_version`-leaf frozen prefix
    /// to the `start_version`-leaf frozen prefix.  The number of records
    /// must agree exactly with the leaf count implied by `end_version`; the
    /// index-corruption checks — highest surviving position, exact deletion
    /// count — are proved from that precondition instead of failing at run
    /// time.
    pub fn truncate_transaction_accumulator(
        ledger: &mut LedgerStore,
        start_version: u64,
        end_version: u64,
    )
        requires
            1 <= start_version <= end_version,
            end_version <= VERSION_LIMIT,
            old(ledger).transaction_accumulator@.len() == spec_frozen(end_version as nat),
            acc_contiguous(old(ledger).transaction_accumulator@),
        ensures
            final(ledger).transaction_accumulator@ == old(
                ledger,
            ).transaction_accumulator@.subrange(0, spec_frozen(start_version as nat)),
            final(ledger).transaction_infos@ == old(ledger).transaction_infos@,
            final(ledger).transactions@ == old(ledger).transactions@,
            final(ledger).transactions_by_account@ == old(ledger).transactions_by_account@,
            final(ledger).transactions_by_hash@ == old(ledger).transactions_by_hash@,
            final(ledger).version_data@ == old(ledger).version_data@,
            final(ledger).write_sets@ == old(ledger).write_sets@,
            final(ledger).events@ == old(ledger).events@,
            final(ledger).epoch_by_version@ == old(ledger).epoch_by_version@,
            final(ledger).ledger_infos@ == old(ledger).ledger_infos@,
            final(ledger).stale_state_value_indices@ == old(ledger).stale_state_value_indices@,
            final(ledger).state_values@ == old(ledger).state_values@,
    {
        let num_frozen_nodes = Cmd::num_frozen_nodes_in_accumulator(end_version);
        proof {
            lemma_frozen_bounds(end_version as nat);
            // the highest surviving position agrees with the current leaf count
            if ledger.transaction_accumulator@.len() > 0 {
                let last = ledger.transaction_accumulator@.len() - 1;
                assert(ledger.transaction_accumulator@[last].k1 as int + 1 == num_frozen_nodes);
            }
        }
        let num_frozen_nodes_after_this_batch = Cmd::num_frozen_nodes_in_accumulator(
            start_version,
        );
        proof {
            lemma_frozen_mono(start_version as nat, end_version as nat);
            lemma_frozen_bounds(start_version as nat);
        }
        // every record at or past the new boundary position is deleted, and
        // the deletion count is exactly the difference of the frozen counts
        let num_nodes_to_delete = num_frozen_nodes - num_frozen_nodes_after_this_batch;
        let before = ledger.transaction_accumulator.len();
        ledger.transaction_accumulator.truncate(num_frozen_nodes_after_this_batch as usize);
        assert(before - ledger.transaction_accumulator.len() == num_nodes_to_delete);
    }

    /// One atomic batch of the ledger truncation: removes every record tied
    /// to the versions `[start_version, end_version)` from all tables.
    pub fn truncate_ledger_db_single_batch(
        ledger: &mut LedgerStore,
        start_version: u64,
        end_version: u64,
    )
        requires
            1 <= start_version < end_version,
            end_version <= VERSION_LIMIT,
            all_k1_le(old(ledger).epoch_by_version@, (end_version - 1) as u64),
            all_k1_le(old(ledger).stale_state_value_indices@, (end_version - 1) as u64),
            old(ledger).transaction_accumulator@.len() == spec_frozen(end_version as nat),
            acc_contiguous(old(ledger).transaction_accumulator@),
        ensures
            final(ledger).transaction_infos@ == drop_range(
                old(ledger).transaction_infos@,
                start_version,
                end_version,
            ),
            final(ledger).transactions@ == drop_range(
                old(ledger).transactions@,
                start_version,
                end_version,
            ),
            final(ledger).transactions_by_account@ == drop_matched_in_range(
                old(ledger).transactions_by_account@,
                old(ledger).transactions@,
                start_version,
                end_version,
                account_match(),
            ),
            final(ledger).transactions_by_hash@ == drop_matched_in_range(
                old(ledger).transactions_by_hash@,
                old(ledger).transactions@,
                start_version,
                end_version,
                hash_match(),
            ),
            final(ledger).version_data@ == drop_range(
                old(ledger).version_data@,
                start_version,
                end_version,
            ),
            final(ledger).write_sets@ == drop_range(
                old(ledger).write_sets@,
                start_version,
                end_version,
            ),
            final(ledger).events@ == drop_range(
                old(ledger).events@,
                start_version,
                end_version,
            ),
            final(ledger).epoch_by_version@ == drop_range(
                old(ledger).epoch_by_version@,
                start_version,
                end_version,
            ),
            final(ledger).ledger_infos@ == drop_matched_in_range(
                old(ledger).ledger_infos@,
                old(ledger).epoch_by_version@,
                start_version,
                end_version,
                epoch_match(),
            ),
            final(ledger).stale_state_value_indices@ == drop_range(
                old(ledger).stale_state_value_indices@,
                start_version,
                end_version,
            ),
            final(ledger).state_values@ == drop_matched_in_range(
                old(ledger).state_values@,
                old(ledger).stale_state_value_indices@,
                start_version,
                end_version,
                stale_match(),
            ),
            final(ledger).transaction_accumulator@ == old(
                ledger,
            ).transaction_accumulator@.subrange(0, spec_frozen(start_version as nat)),
    {
        Self::delete_transaction_index_data(ledger, start_version, end_version);
        Self::delete_per_epoch_data(ledger, start_version, end_version);
        Self::delete_per_version_data(ledger, start_version, end_version);
        Self::delete_state_value_and_index(ledger, start_version, end_version);
        Self::prune_events(ledger, start_version, end_version);
        Self::truncate_transaction_accumulator(ledger, start_version, end_version);
    }

    /// Deletes all ledger data for versions in
    /// `(target_version, current_version]`, in descending half-open batches
    /// of at most `batch_size` versions, each applied atomically.
    pub fn truncate_ledger_db(
        ledger: &mut LedgerStore,
        current_version: u64,
        target_version: u64,
        batch_size: usize,
    )
        requires
            wf_ledger_at(*old(ledger), current_version),
            target_version <= current_version,
            batch_size >= 1,
        ensures
            ledger_truncated_to(*old(ledger), *final(ledger), target_version),
            is_max_k1(final(ledger).transaction_infos@, target_version),
    {
        let ghost l0 = *old(ledger);
        let ghost cur0 = current_version;
        proof {
            lemma_keep_le_all(l0.transaction_infos@, cur0);
            lemma_keep_le_all(l0.transactions@, cur0);
            lemma_drop_matched_in_range_empty(
                l0.transactions_by_account@,
                l0.transactions@,
                (cur0 + 1) as u64,
                account_match(),
            );
            lemma_drop_matched_in_range_empty(
                l0.transactions_by_hash@,
                l0.transactions@,
                (cur0 + 1) as u64,
                hash_match(),
            );
            lemma_keep_le_all(l0.version_data@, cur0);
            lemma_keep_le_all(l0.write_sets@, cur0);
            lemma_keep_le_all(l0.events@, cur0);
            lemma_keep_le_all(l0.epoch_by_version@, cur0);
            lemma_keep_le_all(l0.stale_state_value_indices@, cur0);
            lemma_drop_matched_in_range_empty(
                l0.ledger_infos@,
                l0.epoch_by_version@,
                (cur0 + 1) as u64,
                epoch_match(),
            );
            lemma_drop_matched_in_range_empty(
                l0.state_values@,
                l0.stale_state_value_indices@,
                (cur0 + 1) as u64,
                stale_match(),
            );
            assert(l0.transaction_accumulator@.subrange(
                0,
                spec_frozen((cur0 + 1) as nat),
            ) =~= l0.transaction_accumulator@);
        }
        let mut current = current_version;
        while current > target_version
            invariant
                l0 == *old(ledger),
                wf_ledger_at(l0, cur0),
                target_version <= current <= cur0,
                cur0 < VERSION_LIMIT,
                batch_size >= 1,
                ledger.transaction_infos@ == keep_le(l0.transaction_infos@, current),
                ledger.transactions@ == keep_le(l0.transactions@, current),
                ledger.transactions_by_account@ == drop_matched_in_range(
                    l0.transactions_by_account@,
                    l0.transactions@,
                    (current + 1) as u64,
                    (cur0 + 1) as u64,
                    account_match(),
                ),
                ledger.transactions_by_hash@ == drop_matched_in_range(
                    l0.transactions_by_hash@,
                    l0.transactions@,
                    (current + 1) as u64,
                    (cur0 + 1) as u64,
                    hash_match(),
                ),
                ledger.version_data@ == keep_le(l0.version_data@, current),
                ledger.write_sets@ == keep_le(l0.write_sets@, current),
                ledger.events@ == keep_le(l0.events@, current),
                ledger.epoch_by_version@ == keep_le(l0.epoch_by_version@, current),
                ledger.stale_state_value_indices@ == keep_le(
                    l0.stale_state_value_indices@,
                    current,
                ),
                ledger.ledger_infos@ == drop_matched_in_range(
                    l0.ledger_infos@,
                    l0.epoch_by_version@,
                    (current + 1) as u64,
                    (cur0 + 1) as u64,
                    epoch_match(),
                ),
                ledger.state_values@ == drop_matched_in_range(
                    l0.state_values@,
                    l0.stale_state_value_indices@,
                    (current + 1) as u64,
                    (cur0 + 1) as u64,
                    stale_match(),
                ),
                ledger.transaction_accumulator@ == l0.transaction_accumulator@.subrange(
                    0,
                    spec_frozen((current + 1) as nat),
                ),
            decreases current - target_version,
        {
            let bs: u64 = batch_size as u64;
            let start_version = if current + 1 > bs && current + 1 - bs > target_version + 1 {
                current + 1 - bs
            } else {
                target_version + 1
            };
            let end_version = current + 1;
            proof {
                lemma_frozen_mono((current + 1) as nat, (cur0 + 1) as nat);
                lemma_frozen_bounds((current + 1) as nat);
                assert forall|e: Entry| ledger.epoch_by_version@.contains(e) implies e.k1
                    <= (end_version - 1) as u64 by {
                    lemma_keep_le_contains(l0.epoch_by_version@, current, e);
                }
                assert forall|e: Entry|
                    ledger.stale_state_value_indices@.contains(e) implies e.k1 <= (end_version
                    - 1) as u64 by {
                    lemma_keep_le_contains(l0.stale_state_value_indices@, current, e);
                }
                assert(ledger.transaction_accumulator@.len() == spec_frozen(
                    end_version as nat,
                ));
                assert forall|i: int|
                    0 <= i < ledger.transaction_accumulator@.len() implies #[trigger] ledger
                    .transaction_accumulator@[i].k1 == i by {
                    assert(ledger.transaction_accumulator@[i]
                        == l0.transaction_accumulator@[i]);
                }
            }
            let ghost entry_li = ledger.ledger_infos@;
            let ghost entry_sv = ledger.state_values@;
            Self::truncate_ledger_db_single_batch(ledger, start_version, end_version);
            proof {
                let prev = current;
                lemma_drop_range_keep_le(
                    l0.transaction_infos@,
                    prev,
                    start_version,
                    end_version,
                );
                lemma_drop_range_keep_le(l0.transactions@, prev, start_version, end_version);
                lemma_cross_compose(
                    l0.transactions_by_account@,
                    l0.transactions@,
                    start_version,
                    (prev + 1) as u64,
                    (cur0 + 1) as u64,
                    account_match(),
                );
                lemma_cross_compose(
                    l0.transactions_by_hash@,
                    l0.transactions@,
                    start_version,
                    (prev + 1) as u64,
                    (cur0 + 1) as u64,
                    hash_match(),
                );
                lemma_drop_range_keep_le(l0.version_data@, prev, start_version, end_version);
                lemma_drop_range_keep_le(l0.write_sets@, prev, start_version, end_version);
                lemma_drop_range_keep_le(l0.events@, prev, start_version, end_version);
                lemma_drop_range_keep_le(
                    l0.epoch_by_version@,
                    prev,
                    start_version,
                    end_version,
                );
                lemma_drop_range_keep_le(
                    l0.stale_state_value_indices@,
                    prev,
                    start_version,
                    end_version,
                );
                lemma_cross_compose(
                    l0.ledger_infos@,
                    l0.epoch_by_version@,
                    start_version,
                    (prev + 1) as u64,
                    (cur0 + 1) as u64,
                    epoch_match(),
                );
                lemma_cross_compose(
                    l0.state_values@,
                    l0.stale_state_value_indices@,
                    start_version,
                    (prev + 1) as u64,
                    (cur0 + 1) as u64,
                    stale_match(),
                );
                lemma_frozen_mono(start_version as nat, (prev + 1) as nat);
                lemma_frozen_bounds(start_version as nat);
                assert(l0.transaction_accumulator@.subrange(
                    0,
                    spec_frozen((prev + 1) as nat),
                ).subrange(0, spec_frozen(start_version as nat))
                    =~= l0.transaction_accumulator@.subrange(
                    0,
                    spec_frozen(start_version as nat),
                ));
            }
            current = start_version - 1;
        }
        proof {
            lemma_range_to_above(
                l0.transactions_by_account@,
                l0.transactions@,
                (target_version + 1) as u64,
                (cur0 + 1) as u64,
                account_match(),
            );
            lemma_range_to_above(
                l0.transactions_by_hash@,
                l0.transactions@,
                (target_version + 1) as u64,
                (cur0 + 1) as u64,
                hash_match(),
            );
            lemma_range_to_above(
                l0.ledger_infos@,
                l0.epoch_by_version@,
                (target_version + 1) as u64,
                (cur0 + 1) as u64,
                epoch_match(),
            );
            lemma_range_to_above(
                l0.state_values@,
                l0.stale_state_value_indices@,
                (target_version + 1) as u64,
                (cur0 + 1) as u64,
                stale_match(),
            );
            // the surviving greatest version is exactly the target
            assert(has_k1(l0.transaction_infos@, target_version));
            let w = choose|w: Entry|
                l0.transaction_infos@.contains(w) && w.k1 == target_version;
            lemma_keep_le_contains(l0.transaction_infos@, target_version, w);
            assert(has_k1(ledger.transaction_infos@, target_version));
            assert forall|e: Entry| ledger.transaction_infos@.contains(e) implies e.k1
                <= target_version by {
                lemma_keep_le_contains(l0.transaction_infos@, target_version, e);
            }
        }
    }
}

} // verus!
