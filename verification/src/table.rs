//! The table model shared by the two stores.
//!
//! Every persistent table is held as a vector of [`Entry`] records: up to two
//! key words and two value words.  Deletion primitives are specified as
//! sequence filters over the table's view, so that the truncators' contracts
//! can state the exact surviving contents.

use vstd::prelude::*;

verus! {

/// One record of a keyed table.  Which words are meaningful depends on the
/// table; unused words are zero.
#[derive(Clone, Copy, Debug, PartialEq, Eq, Structural)]
pub struct Entry {
    pub k1: u64,
    pub k2: u64,
    pub v1: u64,
    pub v2: u64,
}

/// The records whose primary key is at most `bound`.
pub open spec fn keep_le(s: Seq<Entry>, bound: u64) -> Seq<Entry> {
    s.filter(|e: Entry| e.k1 <= bound)
}

/// The records whose primary key lies outside the half-open range
/// `[start, end)`.
pub open spec fn drop_range(s: Seq<Entry>, start: u64, end: u64) -> Seq<Entry> {
    s.filter(|e: Entry| !(start <= e.k1 < end))
}

/// The records whose primary key lies inside the half-open range
/// `[start, end)`.
pub open spec fn take_range(s: Seq<Entry>, start: u64, end: u64) -> Seq<Entry> {
    s.filter(|e: Entry| start <= e.k1 < end)
}

/// Some record has primary key `x`.
pub open spec fn has_k1(s: Seq<Entry>, x: u64) -> bool {
    exists|e: Entry| s.contains(e) && e.k1 == x
}

/// Some record has primary key at most `bound`.
pub open spec fn has_k1_le(s: Seq<Entry>, bound: u64) -> bool {
    exists|e: Entry| s.contains(e) && e.k1 <= bound
}

/// Every record has primary key at most `bound`.
pub open spec fn all_k1_le(s: Seq<Entry>, bound: u64) -> bool {
    forall|e: Entry| s.contains(e) ==> e.k1 <= bound
}

/// Some record has keys `(a, b)`.
pub open spec fn has_pair(s: Seq<Entry>, a: u64, b: u64) -> bool {
    exists|e: Entry| s.contains(e) && e.k1 == a && e.k2 == b
}

/// `m` is the greatest primary key present.
pub open spec fn is_max_k1(s: Seq<Entry>, m: u64) -> bool {
    &&& has_k1(s, m)
    &&& forall|e: Entry| s.contains(e) ==> e.k1 <= m
}

/// `m` is the greatest primary key present that is at most `bound`.
pub open spec fn is_max_k1_le(s: Seq<Entry>, bound: u64, m: u64) -> bool {
    &&& m <= bound
    &&& has_k1(s, m)
    &&& forall|e: Entry| s.contains(e) && e.k1 <= bound ==> e.k1 <= m
}

/// Some record of `sel` matches `e` under `m`.
pub open spec fn matched_by(sel: Seq<Entry>, e: Entry, m: spec_fn(Entry, Entry) -> bool) -> bool {
    exists|b: Entry| sel.contains(b) && m(b, e)
}

/// Some record of `sel` with primary key in `[start, end)` matches `e`.
pub open spec fn matched_in_range(
    sel: Seq<Entry>,
    e: Entry,
    start: u64,
    end: u64,
    m: spec_fn(Entry, Entry) -> bool,
) -> bool {
    exists|b: Entry| sel.contains(b) && start <= b.k1 < end && m(b, e)
}

/// Some record of `sel` with primary key above `lo` matches `e`.
pub open spec fn matched_above(
    sel: Seq<Entry>,
    e: Entry,
    lo: u64,
    m: spec_fn(Entry, Entry) -> bool,
) -> bool {
    exists|b: Entry| sel.contains(b) && b.k1 > lo && m(b, e)
}

/// The records not matched by any record of `sel`.
pub open spec fn drop_matched(
    s: Seq<Entry>,
    sel: Seq<Entry>,
    m: spec_fn(Entry, Entry) -> bool,
) -> Seq<Entry> {
    s.filter(|e: Entry| !matched_by(sel, e, m))
}

/// The records not matched by any record of `sel` with key in `[start, end)`.
pub open spec fn drop_matched_in_range(
    s: Seq<Entry>,
    sel: Seq<Entry>,
    start: u64,
    end: u64,
    m: spec_fn(Entry, Entry) -> bool,
) -> Seq<Entry> {
    s.filter(|e: Entry| !matched_in_range(sel, e, start, end, m))
}

/// The records not matched by any record of `sel` with key above `lo`.
pub open spec fn drop_matched_above(
    s: Seq<Entry>,
    sel: Seq<Entry>,
    lo: u64,
    m: spec_fn(Entry, Entry) -> bool,
) -> Seq<Entry> {
    s.filter(|e: Entry| !matched_above(sel, e, lo, m))
}

/// The records not matched by the single record `b`.
pub open spec fn drop_one(s: Seq<Entry>, b: Entry, m: spec_fn(Entry, Entry) -> bool) -> Seq<
    Entry,
> {
    s.filter(|e: Entry| !m(b, e))
}

/// How an epoch-boundary record selects the per-epoch record it owns: the
/// boundary's epoch number is the per-epoch record's key.
pub open spec fn epoch_match() -> spec_fn(Entry, Entry) -> bool {
    |b: Entry, e: Entry| b.v1 == e.k1
}

/// How a stale-value index record selects the historical value it points at:
/// the index carries (stale-since version, state key) and the value record is
/// keyed by (state key, version).
pub open spec fn stale_match() -> spec_fn(Entry, Entry) -> bool {
    |b: Entry, e: Entry| b.k2 == e.k1 && b.k1 == e.k2
}

/// How a transaction record selects its by-account index entry: the record
/// carries (account, sequence number) and the index is keyed by them.
pub open spec fn account_match() -> spec_fn(Entry, Entry) -> bool {
    |b: Entry, e: Entry| e.k1 == b.k2 && e.k2 == b.v1
}

/// How a transaction record selects its by-hash index entry: the index is
/// keyed by the transaction's hash.
pub open spec fn hash_match() -> spec_fn(Entry, Entry) -> bool {
    |b: Entry, e: Entry| e.k1 == b.v2
}

/// Pushing a record onto a table filters through `take_range` elementwise.
pub proof fn lemma_take_range_push(s: Seq<Entry>, start: u64, end: u64, x: Entry)
    ensures
        take_range(s.push(x), start, end) == (if start <= x.k1 < end {
            take_range(s, start, end).push(x)
        } else {
            take_range(s, start, end)
        }),
{
    reveal(Seq::filter);
    assert(s.push(x).drop_last() =~= s);
}

/// Pushing a record onto a table filters through `drop_range` elementwise.
pub proof fn lemma_drop_range_push(s: Seq<Entry>, start: u64, end: u64, x: Entry)
    ensures
        drop_range(s.push(x), start, end) == (if !(start <= x.k1 < end) {
            drop_range(s, start, end).push(x)
        } else {
            drop_range(s, start, end)
        }),
{
    reveal(Seq::filter);
    assert(s.push(x).drop_last() =~= s);
}

/// Pushing a record onto a table filters through `drop_one` elementwise.
pub proof fn lemma_drop_one_push(s: Seq<Entry>, b: Entry, m: spec_fn(Entry, Entry) -> bool, x: Entry)
    ensures
        drop_one(s.push(x), b, m) == (if !m(b, x) {
            drop_one(s, b, m).push(x)
        } else {
            drop_one(s, b, m)
        }),
{
    reveal(Seq::filter);
    assert(s.push(x).drop_last() =~= s);
}

/// Membership in `keep_le` is membership with a bounded key.
pub proof fn lemma_keep_le_contains(s: Seq<Entry>, bound: u64, x: Entry)
    ensures
        keep_le(s, bound).contains(x) <==> (s.contains(x) && x.k1 <= bound),
    decreases s.len(),
{
    reveal(Seq::filter);
    if s.len() != 0 {
        let t = s.drop_last();
        lemma_keep_le_contains(t, bound, x);
        assert(t.push(s.last()) =~= s);
        lemma_push_contains(t, s.last());
        if s.last().k1 <= bound {
            assert(keep_le(s, bound) == keep_le(t, bound).push(s.last()));
            lemma_push_contains(keep_le(t, bound), s.last());
        }
    }
}

/// Membership in `take_range` is membership with a key in range.
pub proof fn lemma_take_range_contains(s: Seq<Entry>, start: u64, end: u64, x: Entry)
    ensures
        take_range(s, start, end).contains(x) <==> (s.contains(x) && start <= x.k1 < end),
    decreases s.len(),
{
    reveal(Seq::filter);
    if s.len() != 0 {
        let t = s.drop_last();
        lemma_take_range_contains(t, start, end, x);
        assert(t.push(s.last()) =~= s);
        lemma_push_contains(t, s.last());
        if start <= s.last().k1 < end {
            assert(take_range(s, start, end) == take_range(t, start, end).push(s.last()));
            lemma_push_contains(take_range(t, start, end), s.last());
        }
    }
}

/// Membership after a push is membership before, or the pushed record.
pub proof fn lemma_push_contains(s: Seq<Entry>, x: Entry)
    ensures
        forall|y: Entry| #[trigger] s.push(x).contains(y) <==> (s.contains(y) || y == x),
{
    assert forall|y: Entry| #[trigger] s.push(x).contains(y) implies (s.contains(y) || y == x) by {
        let i = choose|i: int| 0 <= i < s.push(x).len() && s.push(x)[i] == y;
        if i < s.len() {
            assert(s[i] == y);
        }
    }
    assert forall|y: Entry| (s.contains(y) || y == x) implies #[trigger] s.push(x).contains(y) by {
        if s.contains(y) {
            let i = choose|i: int| 0 <= i < s.len() && s[i] == y;
            assert(s.push(x)[i] == y);
        } else {
            assert(s.push(x)[s.len() as int] == y);
        }
    }
}

/// A bound that every key already meets filters nothing out.
pub proof fn lemma_keep_le_all(s: Seq<Entry>, bound: u64)
    requires
        all_k1_le(s, bound),
    ensures
        keep_le(s, bound) == s,
    decreases s.len(),
{
    reveal(Seq::filter);
    if s.len() != 0 {
        let t = s.drop_last();
        assert(t.push(s.last()) =~= s);
        lemma_push_contains(t, s.last());
        assert(s.contains(s.last()));
        assert forall|e: Entry| t.contains(e) implies e.k1 <= bound by {
            assert(s.contains(e));
        }
        lemma_keep_le_all(t, bound);
    }
}

/// Tightening the bound of `keep_le` changes nothing when no surviving key
/// lies between the two bounds.
pub proof fn lemma_keep_le_shrink(s: Seq<Entry>, c: u64, b: u64)
    requires
        b <= c,
        forall|e: Entry| s.contains(e) && e.k1 <= c ==> e.k1 <= b,
    ensures
        keep_le(s, c) == keep_le(s, b),
    decreases s.len(),
{
    reveal(Seq::filter);
    if s.len() != 0 {
        let t = s.drop_last();
        assert(t.push(s.last()) =~= s);
        lemma_push_contains(t, s.last());
        assert(s.contains(s.last()));
        assert forall|e: Entry| t.contains(e) && e.k1 <= c implies e.k1 <= b by {
            assert(s.contains(e));
        }
        lemma_keep_le_shrink(t, c, b);
    }
}

/// Filtering by a looser bound first changes nothing.
pub proof fn lemma_keep_le_keep_le(s: Seq<Entry>, a: u64, b: u64)
    requires
        b <= a,
    ensures
        keep_le(keep_le(s, a), b) == keep_le(s, b),
    decreases s.len(),
{
    reveal(Seq::filter);
    if s.len() != 0 {
        let t = s.drop_last();
        let x = s.last();
        lemma_keep_le_keep_le(t, a, b);
        assert(t.push(x) =~= s);
        if x.k1 <= a {
            assert(keep_le(s, a) == keep_le(t, a).push(x));
            assert(keep_le(t, a).push(x).drop_last() =~= keep_le(t, a));
            assert(keep_le(t, a).push(x).last() == x);
        } else {
            assert(keep_le(s, a) == keep_le(t, a));
            assert(keep_le(s, b) == keep_le(t, b));
        }
    }
}

/// Deleting the range `[start, end)` from a table already bounded below `end`
/// leaves exactly the keys below `start`.
pub proof fn lemma_drop_range_keep_le(s: Seq<Entry>, c: u64, start: u64, end: u64)
    requires
        1 <= start,
        (start as int) <= (c as int) + 1,
        (c as int) < (end as int),
    ensures
        drop_range(keep_le(s, c), start, end) == keep_le(s, (start - 1) as u64),
    decreases s.len(),
{
    reveal(Seq::filter);
    if s.len() != 0 {
        let t = s.drop_last();
        let x = s.last();
        lemma_drop_range_keep_le(t, c, start, end);
        assert(t.push(x) =~= s);
        if x.k1 <= c {
            assert(keep_le(s, c) == keep_le(t, c).push(x));
            assert(keep_le(t, c).push(x).drop_last() =~= keep_le(t, c));
            assert(keep_le(t, c).push(x).last() == x);
            if !(start <= x.k1 < end) {
                assert(x.k1 < start);
                assert(drop_range(keep_le(s, c), start, end) == drop_range(
                    keep_le(t, c),
                    start,
                    end,
                ).push(x));
                assert(keep_le(s, (start - 1) as u64) == keep_le(t, (start - 1) as u64).push(x));
            } else {
                assert(drop_range(keep_le(s, c), start, end) == drop_range(
                    keep_le(t, c),
                    start,
                    end,
                ));
                assert(keep_le(s, (start - 1) as u64) == keep_le(t, (start - 1) as u64));
            }
        } else {
            assert(keep_le(s, c) == keep_le(t, c));
            assert(keep_le(s, (start - 1) as u64) == keep_le(t, (start - 1) as u64));
        }
    }
}

/// Deleting exactly the key `cur` from a table whose surviving keys do not
/// exceed `cur` leaves exactly the keys below `cur`.
pub proof fn lemma_drop_at_keep_le(s: Seq<Entry>, c: u64, cur: u64)
    requires
        1 <= cur <= c,
        cur < u64::MAX,
        forall|e: Entry| s.contains(e) && e.k1 <= c ==> e.k1 <= cur,
    ensures
        drop_range(keep_le(s, c), cur, (cur + 1) as u64) == keep_le(s, (cur - 1) as u64),
    decreases s.len(),
{
    reveal(Seq::filter);
    if s.len() != 0 {
        let t = s.drop_last();
        let x = s.last();
        assert(t.push(x) =~= s);
        lemma_push_contains(t, x);
        assert(s.contains(x));
        assert forall|e: Entry| t.contains(e) && e.k1 <= c implies e.k1 <= cur by {
            assert(s.contains(e));
        }
        lemma_drop_at_keep_le(t, c, cur);
        if x.k1 <= c {
            assert(keep_le(s, c) == keep_le(t, c).push(x));
            assert(keep_le(t, c).push(x).drop_last() =~= keep_le(t, c));
        } else {
            assert(keep_le(s, c) == keep_le(t, c));
        }
    }
}

/// A table has at most one greatest key below a bound.
pub proof fn lemma_max_k1_le_unique(s: Seq<Entry>, bound: u64, a: u64, b: u64)
    requires
        is_max_k1_le(s, bound, a),
        is_max_k1_le(s, bound, b),
    ensures
        a == b,
{
    let ea = choose|e: Entry| s.contains(e) && e.k1 == a;
    let eb = choose|e: Entry| s.contains(e) && e.k1 == b;
    assert(ea.k1 <= b && eb.k1 <= a);
}

/// Growing the selector of `matched_by` by one record adds its matches.
pub proof fn lemma_matched_by_push(sel: Seq<Entry>, b: Entry, m: spec_fn(Entry, Entry) -> bool)
    ensures
        forall|e: Entry| #[trigger] matched_by(sel.push(b), e, m) <==> (matched_by(sel, e, m)
            || m(b, e)),
{
    lemma_push_contains(sel, b);
    assert forall|e: Entry| #[trigger] matched_by(sel.push(b), e, m) implies (matched_by(sel, e, m)
        || m(b, e)) by {
        let w = choose|w: Entry| sel.push(b).contains(w) && m(w, e);
        if sel.contains(w) {
            assert(matched_by(sel, e, m));
        }
    }
    assert forall|e: Entry| (matched_by(sel, e, m) || m(b, e)) implies #[trigger] matched_by(
        sel.push(b),
        e,
        m,
    ) by {
        if matched_by(sel, e, m) {
            let w = choose|w: Entry| sel.contains(w) && m(w, e);
            assert(sel.push(b).contains(w) && m(w, e));
        } else {
            assert(sel.push(b).contains(b) && m(b, e));
        }
    }
}

/// An empty selector matches nothing.
pub proof fn lemma_drop_matched_empty(s: Seq<Entry>, m: spec_fn(Entry, Entry) -> bool)
    ensures
        drop_matched(s, Seq::<Entry>::empty(), m) == s,
    decreases s.len(),
{
    reveal(Seq::filter);
    if s.len() != 0 {
        let t = s.drop_last();
        lemma_drop_matched_empty(t, m);
        assert(!matched_by(Seq::<Entry>::empty(), s.last(), m));
        assert(drop_matched(s, Seq::<Entry>::empty(), m) == drop_matched(
            t,
            Seq::<Entry>::empty(),
            m,
        ).push(s.last()));
        assert(t.push(s.last()) =~= s);
    }
}

/// Deleting the matches of a selector grown by one record is deleting the
/// selector's matches and then the one record's matches.
pub proof fn lemma_drop_matched_push_sel(
    s: Seq<Entry>,
    sel: Seq<Entry>,
    b: Entry,
    m: spec_fn(Entry, Entry) -> bool,
)
    ensures
        drop_matched(s, sel.push(b), m) == drop_one(drop_matched(s, sel, m), b, m),
    decreases s.len(),
{
    reveal(Seq::filter);
    lemma_matched_by_push(sel, b, m);
    if s.len() != 0 {
        let t = s.drop_last();
        let x = s.last();
        lemma_drop_matched_push_sel(t, sel, b, m);
        assert(t.push(x) =~= s);
        if !matched_by(sel, x, m) {
            assert(drop_matched(s, sel, m) == drop_matched(t, sel, m).push(x));
            assert(drop_matched(t, sel, m).push(x).drop_last() =~= drop_matched(t, sel, m));
            assert(drop_matched(t, sel, m).push(x).last() == x);
            if !m(b, x) {
                assert(drop_matched(s, sel.push(b), m) == drop_matched(t, sel.push(b), m).push(x));
            } else {
                assert(drop_matched(s, sel.push(b), m) == drop_matched(t, sel.push(b), m));
            }
        } else {
            assert(drop_matched(s, sel, m) == drop_matched(t, sel, m));
            assert(drop_matched(s, sel.push(b), m) == drop_matched(t, sel.push(b), m));
        }
    }
}

/// A selector equal to the in-range slice of a table deletes exactly the
/// in-range matches.
pub proof fn lemma_drop_matched_equiv(
    s: Seq<Entry>,
    sel_slice: Seq<Entry>,
    sel: Seq<Entry>,
    start: u64,
    end: u64,
    m: spec_fn(Entry, Entry) -> bool,
)
    requires
        forall|b: Entry| #[trigger] sel_slice.contains(b) <==> (sel.contains(b) && start <= b.k1
            < end),
    ensures
        drop_matched(s, sel_slice, m) == drop_matched_in_range(s, sel, start, end, m),
    decreases s.len(),
{
    reveal(Seq::filter);
    assert forall|e: Entry| #[trigger] matched_by(sel_slice, e, m) <==> matched_in_range(
        sel,
        e,
        start,
        end,
        m,
    ) by {
        if matched_by(sel_slice, e, m) {
            let w = choose|w: Entry| sel_slice.contains(w) && m(w, e);
            assert(sel.contains(w) && start <= w.k1 < end && m(w, e));
        }
        if matched_in_range(sel, e, start, end, m) {
            let w = choose|w: Entry| sel.contains(w) && start <= w.k1 < end && m(w, e);
            assert(sel_slice.contains(w) && m(w, e));
        }
    }
    if s.len() != 0 {
        let t = s.drop_last();
        lemma_drop_matched_equiv(t, sel_slice, sel, start, end, m);
        assert(t.push(s.last()) =~= s);
    }
}

/// Two successive in-range deletions over adjacent ranges, the second over
/// the table as already truncated below `mid`, amount to one deletion over
/// the union of the ranges.
pub proof fn lemma_cross_compose(
    s: Seq<Entry>,
    sel: Seq<Entry>,
    start: u64,
    mid: u64,
    hi: u64,
    m: spec_fn(Entry, Entry) -> bool,
)
    requires
        1 <= mid,
        start <= mid <= hi,
    ensures
        drop_matched_in_range(
            drop_matched_in_range(s, sel, mid, hi, m),
            keep_le(sel, (mid - 1) as u64),
            start,
            mid,
            m,
        ) == drop_matched_in_range(s, sel, start, hi, m),
    decreases s.len(),
{
    reveal(Seq::filter);
    let selc = keep_le(sel, (mid - 1) as u64);
    assert forall|e: Entry| #[trigger] matched_in_range(selc, e, start, mid, m) <==>
    matched_in_range(sel, e, start, mid, m) by {
        if matched_in_range(selc, e, start, mid, m) {
            let w = choose|w: Entry| selc.contains(w) && start <= w.k1 < mid && m(w, e);
            lemma_keep_le_contains(sel, (mid - 1) as u64, w);
            assert(sel.contains(w) && start <= w.k1 < mid && m(w, e));
        }
        if matched_in_range(sel, e, start, mid, m) {
            let w = choose|w: Entry| sel.contains(w) && start <= w.k1 < mid && m(w, e);
            lemma_keep_le_contains(sel, (mid - 1) as u64, w);
            assert(selc.contains(w) && start <= w.k1 < mid && m(w, e));
        }
    }
    assert forall|e: Entry| #[trigger] matched_in_range(sel, e, start, hi, m) <==> (
    matched_in_range(sel, e, start, mid, m) || matched_in_range(sel, e, mid, hi, m)) by {
        if matched_in_range(sel, e, start, hi, m) {
            let w = choose|w: Entry| sel.contains(w) && start <= w.k1 < hi && m(w, e);
            if w.k1 < mid {
                assert(matched_in_range(sel, e, start, mid, m));
            } else {
                assert(matched_in_range(sel, e, mid, hi, m));
            }
        }
        if matched_in_range(sel, e, start, mid, m) {
            let w = choose|w: Entry| sel.contains(w) && start <= w.k1 < mid && m(w, e);
            assert(sel.contains(w) && start <= w.k1 < hi && m(w, e));
        }
        if matched_in_range(sel, e, mid, hi, m) {
            let w = choose|w: Entry| sel.contains(w) && mid <= w.k1 < hi && m(w, e);
            assert(sel.contains(w) && start <= w.k1 < hi && m(w, e));
        }
    }
    if s.len() != 0 {
        let t = s.drop_last();
        let x = s.last();
        lemma_cross_compose(t, sel, start, mid, hi, m);
        assert(t.push(x) =~= s);
        if !matched_in_range(sel, x, mid, hi, m) {
            assert(drop_matched_in_range(s, sel, mid, hi, m) == drop_matched_in_range(
                t,
                sel,
                mid,
                hi,
                m,
            ).push(x));
            assert(drop_matched_in_range(t, sel, mid, hi, m).push(x).drop_last()
                =~= drop_matched_in_range(t, sel, mid, hi, m));
            assert(drop_matched_in_range(t, sel, mid, hi, m).push(x).last() == x);
        } else {
            assert(drop_matched_in_range(s, sel, mid, hi, m) == drop_matched_in_range(
                t,
                sel,
                mid,
                hi,
                m,
            ));
        }
    }
}

/// When every selector key lies below `hi`, the range `[lo, hi)` selects the
/// same records as "key above `lo - 1`".
pub proof fn lemma_range_to_above(
    s: Seq<Entry>,
    sel: Seq<Entry>,
    lo: u64,
    hi: u64,
    m: spec_fn(Entry, Entry) -> bool,
)
    requires
        1 <= lo,
        forall|b: Entry| sel.contains(b) ==> (b.k1 as int) < (hi as int),
    ensures
        drop_matched_in_range(s, sel, lo, hi, m) == drop_matched_above(s, sel, (lo - 1) as u64, m),
    decreases s.len(),
{
    reveal(Seq::filter);
    assert forall|e: Entry| #[trigger] matched_in_range(sel, e, lo, hi, m) <==> matched_above(
        sel,
        e,
        (lo - 1) as u64,
        m,
    ) by {
        if matched_in_range(sel, e, lo, hi, m) {
            let w = choose|w: Entry| sel.contains(w) && lo <= w.k1 < hi && m(w, e);
            assert(sel.contains(w) && w.k1 > (lo - 1) as u64 && m(w, e));
        }
        if matched_above(sel, e, (lo - 1) as u64, m) {
            let w = choose|w: Entry| sel.contains(w) && w.k1 > (lo - 1) as u64 && m(w, e);
            assert(sel.contains(w) && lo <= w.k1 < hi && m(w, e));
        }
    }
    if s.len() != 0 {
        let t = s.drop_last();
        lemma_range_to_above(t, sel, lo, hi, m);
        assert(t.push(s.last()) =~= s);
    }
}

/// An empty range selects nothing.
pub proof fn lemma_drop_matched_in_range_empty(
    s: Seq<Entry>,
    sel: Seq<Entry>,
    x: u64,
    m: spec_fn(Entry, Entry) -> bool,
)
    ensures
        drop_matched_in_range(s, sel, x, x, m) == s,
    decreases s.len(),
{
    reveal(Seq::filter);
    if s.len() != 0 {
        let t = s.drop_last();
        lemma_drop_matched_in_range_empty(t, sel, x, m);
        assert(!matched_in_range(sel, s.last(), x, x, m));
        assert(t.push(s.last()) =~= s);
    }
}

/// A selector bounded by `lo` selects nothing above `lo`.
pub proof fn lemma_drop_matched_above_id(
    s: Seq<Entry>,
    sel: Seq<Entry>,
    lo: u64,
    m: spec_fn(Entry, Entry) -> bool,
)
    requires
        all_k1_le(sel, lo),
    ensures
        drop_matched_above(s, sel, lo, m) == s,
    decreases s.len(),
{
    reveal(Seq::filter);
    if s.len() != 0 {
        let t = s.drop_last();
        lemma_drop_matched_above_id(t, sel, lo, m);
        assert(!matched_above(sel, s.last(), lo, m));
        assert(t.push(s.last()) =~= s);
    }
}

/// The greatest primary key present in the table, if any.
pub fn max_k1(v: &Vec<Entry>) -> (r: Option<u64>)
    ensures
        match r {
            Some(m) => is_max_k1(v@, m),
            None => v@.len() == 0,
        },
{
    if v.len() == 0 {
        return None;
    }
    let mut m: u64 = v[0].k1;
    let mut i: usize = 1;
    while i < v.len()
        invariant
            1 <= i <= v@.len(),
            exists|j: int| 0 <= j < i && v@[j].k1 == m,
            forall|j: int| 0 <= j < i ==> v@[j].k1 <= m,
        decreases v@.len() - i,
    {
        if v[i].k1 > m {
            m = v[i].k1;
            assert(v@[i as int].k1 == m);
        }
        i = i + 1;
    }
    proof {
        let j = choose|j: int| 0 <= j < v@.len() && v@[j].k1 == m;
        assert(v@.contains(v@[j]));
        assert forall|e: Entry| v@.contains(e) implies e.k1 <= m by {
            let k = choose|k: int| 0 <= k < v@.len() && v@[k] == e;
            assert(v@[k].k1 <= m);
        }
    }
    Some(m)
}

/// The greatest primary key at most `bound`, if any key is that small.
pub fn max_k1_le(v: &Vec<Entry>, bound: u64) -> (r: Option<u64>)
    ensures
        match r {
            Some(m) => is_max_k1_le(v@, bound, m),
            None => !has_k1_le(v@, bound),
        },
{
    let mut r: Option<u64> = None;
    let mut i: usize = 0;
    while i < v.len()
        invariant
            0 <= i <= v@.len(),
            match r {
                Some(m) => m <= bound && (exists|j: int| 0 <= j < i && v@[j].k1 == m) && forall|
                    j: int,
                |
                    0 <= j < i && v@[j].k1 <= bound ==> v@[j].k1 <= m,
                None => forall|j: int| 0 <= j < i ==> v@[j].k1 > bound,
            },
        decreases v@.len() - i,
    {
        if v[i].k1 <= bound {
            match r {
                Some(m) => {
                    if v[i].k1 > m {
                        r = Some(v[i].k1);
                    }
                },
                None => {
                    r = Some(v[i].k1);
                },
            }
        }
        i = i + 1;
    }
    proof {
        match r {
            Some(m) => {
                let j = choose|j: int| 0 <= j < v@.len() && v@[j].k1 == m;
                assert(v@.contains(v@[j]));
                assert forall|e: Entry| v@.contains(e) && e.k1 <= bound implies e.k1 <= m by {
                    let k = choose|k: int| 0 <= k < v@.len() && v@[k] == e;
                    assert(v@[k].k1 <= m);
                }
            },
            None => {
                assert forall|e: Entry| v@.contains(e) implies !(e.k1 <= bound) by {
                    let k = choose|k: int| 0 <= k < v@.len() && v@[k] == e;
                    assert(v@[k].k1 > bound);
                }
            },
        }
    }
    r
}

/// Whether a record with keys `(a, b)` is present.
pub fn contains_pair(v: &Vec<Entry>, a: u64, b: u64) -> (r: bool)
    ensures
        r == has_pair(v@, a, b),
{
    let mut i: usize = 0;
    while i < v.len()
        invariant
            0 <= i <= v@.len(),
            forall|j: int| 0 <= j < i ==> !(v@[j].k1 == a && v@[j].k2 == b),
        decreases v@.len() - i,
    {
        if v[i].k1 == a && v[i].k2 == b {
            assert(v@.contains(v@[i as int]));
            return true;
        }
        i = i + 1;
    }
    proof {
        assert forall|e: Entry| v@.contains(e) implies !(e.k1 == a && e.k2 == b) by {
            let k = choose|k: int| 0 <= k < v@.len() && v@[k] == e;
        }
    }
    false
}

/// The records whose primary key lies in `[start, end)`, in table order.
pub fn collect_k1_range(v: &Vec<Entry>, start: u64, end: u64) -> (r: Vec<Entry>)
    ensures
        r@ == take_range(v@, start, end),
{
    let mut out: Vec<Entry> = Vec::new();
    let mut i: usize = 0;
    proof {
        reveal(Seq::filter);
        assert(v@.take(0) =~= Seq::<Entry>::empty());
    }
    while i < v.len()
        invariant
            0 <= i <= v@.len(),
            out@ == take_range(v@.take(i as int), start, end),
        decreases v@.len() - i,
    {
        let e = v[i];
        proof {
            assert(v@.take(i as int).push(e) =~= v@.take(i as int + 1));
            lemma_take_range_push(v@.take(i as int), start, end, e);
        }
        if start <= e.k1 && e.k1 < end {
            out.push(e);
        }
        i = i + 1;
    }
    proof {
        assert(v@.take(v@.len() as int) =~= v@);
    }
    out
}

/// Deletes every record whose primary key lies in `[start, end)`.
pub fn remove_k1_range(v: &mut Vec<Entry>, start: u64, end: u64)
    ensures
        final(v)@ == drop_range(old(v)@, start, end),
{
    let mut out: Vec<Entry> = Vec::new();
    let mut i: usize = 0;
    proof {
        reveal(Seq::filter);
        assert(v@.take(0) =~= Seq::<Entry>::empty());
    }
    while i < v.len()
        invariant
            0 <= i <= v@.len(),
            v@ == old(v)@,
            out@ == drop_range(v@.take(i as int), start, end),
        decreases v@.len() - i,
    {
        let e = v[i];
        proof {
            assert(v@.take(i as int).push(e) =~= v@.take(i as int + 1));
            lemma_drop_range_push(v@.take(i as int), start, end, e);
        }
        if !(start <= e.k1 && e.k1 < end) {
            out.push(e);
        }
        i = i + 1;
    }
    proof {
        assert(v@.take(v@.len() as int) =~= v@);
    }
    *v = out;
}

/// Deletes the per-epoch record owned by the epoch-boundary record `b`.
pub fn remove_epoch_target(v: &mut Vec<Entry>, b: Entry)
    ensures
        final(v)@ == drop_one(old(v)@, b, epoch_match()),
{
    let mut out: Vec<Entry> = Vec::new();
    let mut i: usize = 0;
    proof {
        reveal(Seq::filter);
        assert(v@.take(0) =~= Seq::<Entry>::empty());
    }
    while i < v.len()
        invariant
            0 <= i <= v@.len(),
            v@ == old(v)@,
            out@ == drop_one(v@.take(i as int), b, epoch_match()),
        decreases v@.len() - i,
    {
        let e = v[i];
        proof {
            assert(v@.take(i as int).push(e) =~= v@.take(i as int + 1));
            lemma_drop_one_push(v@.take(i as int), b, epoch_match(), e);
        }
        if e.k1 != b.v1 {
            out.push(e);
        }
        i = i + 1;
    }
    proof {
        assert(v@.take(v@.len() as int) =~= v@);
    }
    *v = out;
}

/// Deletes the by-account index entry of the transaction record `b`.
pub fn remove_account_target(v: &mut Vec<Entry>, b: Entry)
    ensures
        final(v)@ == drop_one(old(v)@, b, account_match()),
{
    let mut out: Vec<Entry> = Vec::new();
    let mut i: usize = 0;
    proof {
        reveal(Seq::filter);
        assert(v@.take(0) =~= Seq::<Entry>::empty());
    }
    while i < v.len()
        invariant
            0 <= i <= v@.len(),
            v@ == old(v)@,
            out@ == drop_one(v@.take(i as int), b, account_match()),
        decreases v@.len() - i,
    {
        let e = v[i];
        proof {
            assert(v@.take(i as int).push(e) =~= v@.take(i as int + 1));
            lemma_drop_one_push(v@.take(i as int), b, account_match(), e);
        }
        if !(e.k1 == b.k2 && e.k2 == b.v1) {
            out.push(e);
        }
        i = i + 1;
    }
    proof {
        assert(v@.take(v@.len() as int) =~= v@);
    }
    *v = out;
}

/// Deletes the by-hash index entry of the transaction record `b`.
pub fn remove_hash_target(v: &mut Vec<Entry>, b: Entry)
    ensures
        final(v)@ == drop_one(old(v)@, b, hash_match()),
{
    let mut out: Vec<Entry> = Vec::new();
    let mut i: usize = 0;
    proof {
        reveal(Seq::filter);
        assert(v@.take(0) =~= Seq::<Entry>::empty());
    }
    while i < v.len()
        invariant
            0 <= i <= v@.len(),
            v@ == old(v)@,
            out@ == drop_one(v@.take(i as int), b, hash_match()),
        decreases v@.len() - i,
    {
        let e = v[i];
        proof {
            assert(v@.take(i as int).push(e) =~= v@.take(i as int + 1));
            lemma_drop_one_push(v@.take(i as int), b, hash_match(), e);
        }
        if e.k1 != b.v2 {
            out.push(e);
        }
        i = i + 1;
    }
    proof {
        assert(v@.take(v@.len() as int) =~= v@);
    }
    *v = out;
}

/// Deletes the historical state value pointed at by the stale-value index
/// record `b`.
pub fn remove_stale_target(v: &mut Vec<Entry>, b: Entry)
    ensures
        final(v)@ == drop_one(old(v)@, b, stale_match()),
{
    let mut out: Vec<Entry> = Vec::new();
    let mut i: usize = 0;
    proof {
        reveal(Seq::filter);
        assert(v@.take(0) =~= Seq::<Entry>::empty());
    }
    while i < v.len()
        invariant
            0 <= i <= v@.len(),
            v@ == old(v)@,
            out@ == drop_one(v@.take(i as int), b, stale_match()),
        decreases v@.len() - i,
    {
        let e = v[i];
        proof {
            assert(v@.take(i as int).push(e) =~= v@.take(i as int + 1));
            lemma_drop_one_push(v@.take(i as int), b, stale_match(), e);
        }
        if !(e.k1 == b.k2 && e.k2 == b.k1) {
            out.push(e);
        }
        i = i + 1;
    }
    proof {
        assert(v@.take(v@.len() as int) =~= v@);
    }
    *v = out;
}

} // verus!
