//! Index arithmetic for the append-only transaction accumulator.
//!
//! The accumulator is a binary tree over the transactions committed so far,
//! addressed by postorder position.  Once `n` leaves have been appended,
//! exactly `2n - popcount(n)` nodes are structurally fixed ("frozen"), and
//! they occupy postorder positions `0 .. 2n - popcount(n)`.

use crate::cmd::Cmd;
use vstd::prelude::*;

verus! {

/// The number of one bits in the binary representation of `n`.
pub open spec fn spec_popcount(n: nat) -> nat
    decreases n,
{
    if n == 0 {
        0
    } else {
        (n % 2) + spec_popcount(n / 2)
    }
}

/// The number of frozen accumulator nodes once `n` leaves are in place.
pub open spec fn spec_frozen(n: nat) -> int {
    2 * n - spec_popcount(n)
}

pub proof fn lemma_popcount_le(n: nat)
    ensures
        spec_popcount(n) <= n,
    decreases n,
{
    if n > 0 {
        lemma_popcount_le(n / 2);
    }
}

pub proof fn lemma_popcount_pos(n: nat)
    requires
        n >= 1,
    ensures
        spec_popcount(n) >= 1,
    decreases n,
{
    if n / 2 >= 1 {
        lemma_popcount_pos(n / 2);
    }
}

pub proof fn lemma_popcount_succ(n: nat)
    ensures
        spec_popcount(n + 1) <= spec_popcount(n) + 1,
    decreases n,
{
    if n % 2 == 0 {
        assert((n + 1) / 2 == n / 2);
    } else {
        assert((n + 1) / 2 == n / 2 + 1);
        lemma_popcount_succ(n / 2);
    }
}

/// Appending one leaf freezes at least one more node.
pub proof fn lemma_frozen_step(n: nat)
    ensures
        spec_frozen(n) + 1 <= spec_frozen(n + 1),
{
    lemma_popcount_succ(n);
}

pub proof fn lemma_frozen_mono(a: nat, b: nat)
    requires
        a <= b,
    ensures
        spec_frozen(a) <= spec_frozen(b),
    decreases b - a,
{
    if a < b {
        lemma_frozen_mono(a, (b - 1) as nat);
        lemma_frozen_step((b - 1) as nat);
    }
}

pub proof fn lemma_frozen_bounds(n: nat)
    ensures
        n <= spec_frozen(n) <= 2 * n,
{
    lemma_popcount_le(n);
}

/// The number of one bits of `x`.
pub fn popcount_u64(x: u64) -> (r: u64)
    ensures
        r as nat == spec_popcount(x as nat),
{
    let mut n: u64 = x;
    let mut c: u64 = 0;
    proof {
        lemma_popcount_le(x as nat);
    }
    while n > 0
        invariant
            c as nat + spec_popcount(n as nat) == spec_popcount(x as nat),
            c as nat <= spec_popcount(x as nat),
            spec_popcount(x as nat) <= x as nat,
        decreases n,
    {
        proof {
            lemma_popcount_pos(n as nat);
        }
        c = c + n % 2;
        n = n / 2;
    }
    c
}

impl Cmd {
    /// The number of frozen nodes in an accumulator holding `num_leaves`
    /// leaves: `2 * num_leaves - popcount(num_leaves)`.
    pub fn num_frozen_nodes_in_accumulator(num_leaves: u64) -> (r: u64)
        requires
            num_leaves < 0x8000_0000_0000_0000u64,
        ensures
            r as int == spec_frozen(num_leaves as nat),
            r as int == 2 * (num_leaves as int) - (spec_popcount(num_leaves as nat) as int),
    {
        proof {
            lemma_popcount_le(num_leaves as nat);
        }
        let pc = popcount_u64(num_leaves);
        2 * num_leaves - pc
    }
}

/// The postorder position at which the frozen prefix of an accumulator over
/// `leaf_count` leaves ends: new leaves are appended from this position on.
pub fn boundary_position(leaf_count: u64) -> (r: u64)
    requires
        leaf_count < 0x8000_0000_0000_0000u64,
    ensures
        r as int == spec_frozen(leaf_count as nat),
{
    Cmd::num_frozen_nodes_in_accumulator(leaf_count)
}

} // verus!
