//! Counting arguments on finite sequences of numbers: the pigeonhole
//! principle and two of its consequences.

use vstd::prelude::*;

verus! {

/// Every entry of `f` lies in `lo..hi`.
pub open spec fn within(f: Seq<int>, lo: int, hi: int) -> bool {
    forall|i: int| 0 <= i < f.len() ==> lo <= #[trigger] f[i] < hi
}

/// No number occurs twice in `f`.
pub open spec fn distinct(f: Seq<int>) -> bool {
    forall|i: int, j: int| 0 <= i < j < f.len() ==> f[i] != f[j]
}

/// The number `d` occurs in `f`.
pub open spec fn occurs(f: Seq<int>, d: int) -> bool {
    exists|i: int| 0 <= i < f.len() && f[i] == d
}

/// A position at which `d` occurs in `f`, where it occurs.
pub open spec fn position_of(f: Seq<int>, d: int) -> int {
    choose|i: int| 0 <= i < f.len() && f[i] == d
}

/// The pigeonhole principle: more than `m` numbers, each in `0..m`, are
/// not all different.
pub proof fn lemma_pigeonhole(f: Seq<int>, m: int)
    requires
        0 <= m < f.len(),
        within(f, 0, m),
    ensures
        !distinct(f),
    decreases m,
{
    if m == 0 {
        assert(0 <= f[0] < m);
    } else if occurs(f, m - 1) {
        // Without one occurrence of `m - 1`, either `m - 1` is still there
        // or the rest is taken from `0..m - 1`.
        let p: int = position_of(f, m - 1);
        let rest: Seq<int> = Seq::new(
            (f.len() - 1) as nat,
            |j: int|
                if j < p {
                    f[j]
                } else {
                    f[j + 1]
                },
        );
        if !occurs(rest, m - 1) {
            assert(within(rest, 0, m - 1));
            lemma_pigeonhole(rest, m - 1);
        }
    } else {
        assert(within(f, 0, m - 1));
        lemma_pigeonhole(f, m - 1);
    }
}

/// As many different numbers as the range `lo..lo + f.len()` holds, all
/// taken from that range, are all the numbers of the range.
pub proof fn lemma_distinct_covers(f: Seq<int>, lo: int, d: int)
    requires
        within(f, lo, lo + f.len()),
        distinct(f),
        lo <= d < lo + f.len(),
    ensures
        occurs(f, d),
{
    if !occurs(f, d) {
        // Closing the gap at `d` packs the numbers into a range that is
        // too small for them.
        let packed: Seq<int> = Seq::new(
            f.len(),
            |i: int|
                if f[i] > d {
                    f[i] - lo - 1
                } else {
                    f[i] - lo
                },
        );
        assert(within(packed, 0, f.len() - 1));
        lemma_pigeonhole(packed, f.len() - 1);
    }
}

/// Where a number occurs twice among as many numbers as the range
/// `lo..lo + f.len()` holds, all taken from that range, some number of
/// the range does not occur.
pub proof fn lemma_repeat_leaves_gap(f: Seq<int>, lo: int, a: int, b: int) -> (d: int)
    requires
        within(f, lo, lo + f.len()),
        0 <= a < b < f.len(),
        f[a] == f[b],
    ensures
        lo <= d < lo + f.len(),
        !occurs(f, d),
{
    let n: int = f.len() as int;
    if forall|d: int| lo <= d < lo + n ==> occurs(f, d) {
        // Each number of the range has a position other than `b`, and
        // these are fewer than the numbers.
        let places: Seq<int> = Seq::new(f.len(), |k: int| position_of(f, lo + k));
        assert forall|k: int| 0 <= k < n implies 0 <= #[trigger] places[k] < n && f[places[k]]
            == lo + k by {
            assert(occurs(f, lo + k));
        }
        let packed: Seq<int> = Seq::new(
            f.len(),
            |k: int|
                if places[k] == b {
                    a
                } else if places[k] > b {
                    places[k] - 1
                } else {
                    places[k]
                },
        );
        assert(within(packed, 0, n - 1));
        lemma_pigeonhole(packed, n - 1);
        assert(false);
    }
    choose|d: int| lo <= d < lo + n && !occurs(f, d)
}

} // verus!
