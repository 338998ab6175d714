//! In-place partition-exchange (quicksort) sorting of integer sequences.

use vstd::prelude::*;
use vstd::seq_lib::lemma_multiset_commutative;
use vstd::seq_lib::lemma_sorted_unique;
use vstd::seq_lib::group_to_multiset_ensures;
use vstd::seq_lib::to_multiset_insert;
use vstd::seq_lib::to_multiset_remove;
use vstd::relations::sorted_by;
use vstd::relations::total_ordering;

verus! {

/// The values of `s` at the positions of `lo..=hi` that exist stand in
/// ascending order.
pub open spec fn sorted_between(s: Seq<i32>, lo: int, hi: int) -> bool {
    forall|i: int, j: int| lo <= i <= j <= hi && 0 <= i && j < s.len() ==> s[i] <= s[j]
}

/// Overwriting one position changes the multiset of values by taking out
/// the overwritten value and putting in the new one.
proof fn lemma_update_multiset(s: Seq<i32>, i: int, v: i32)
    requires
        0 <= i < s.len(),
    ensures
        s.update(i, v).to_multiset() == s.to_multiset().remove(s[i]).insert(v),
{
    broadcast use to_multiset_insert;
    broadcast use to_multiset_remove;

    assert(s.update(i, v) =~= s.remove(i).insert(i, v));
}

/// Copying the value at `b` over the hole at `a` moves the hole to `b`:
/// both states stand for the same multiset once the out-of-band value is
/// written back into the hole.
proof fn lemma_hole_shift(s: Seq<i32>, a: int, b: int, v: i32)
    requires
        0 <= a < s.len(),
        0 <= b < s.len(),
        a != b,
    ensures
        s.update(a, s[b]).update(b, v).to_multiset() == s.update(a, v).to_multiset(),
{
    broadcast use vstd::multiset::group_multiset_axioms;

    let s1 = s.update(a, s[b]);
    lemma_update_multiset(s, a, s[b]);
    lemma_update_multiset(s1, b, v);
    lemma_update_multiset(s, a, v);
    assert(s1[b] == s[b]);
    assert(s.to_multiset().remove(s[a]).insert(s[b]).remove(s[b]).insert(v)
        =~= s.to_multiset().remove(s[a]).insert(v));
}

/// Two sequences of the same length, holding the same multiset of values
/// and agreeing outside `[a, b)`, hold the same multiset inside `[a, b)`.
proof fn lemma_multiset_of_frame(s1: Seq<i32>, s2: Seq<i32>, a: int, b: int)
    requires
        s1.len() == s2.len(),
        0 <= a <= b <= s1.len(),
        s1.to_multiset() == s2.to_multiset(),
        forall|i: int| 0 <= i < a ==> s1[i] == s2[i],
        forall|i: int| b <= i < s1.len() ==> s1[i] == s2[i],
    ensures
        s1.subrange(a, b).to_multiset() == s2.subrange(a, b).to_multiset(),
{
    broadcast use vstd::multiset::group_multiset_axioms;

    let n = s1.len() as int;
    let p = s1.subrange(0, a);
    let q = s1.subrange(b, n);
    let x = s1.subrange(a, b);
    let y = s2.subrange(a, b);
    assert(s1 =~= (p + x) + q);
    assert(s2 =~= (p + y) + q);
    lemma_multiset_commutative(p + x, q);
    lemma_multiset_commutative(p, x);
    lemma_multiset_commutative(p + y, q);
    lemma_multiset_commutative(p, y);
    assert(p.to_multiset().add(x.to_multiset()).add(q.to_multiset()) == p.to_multiset().add(
        y.to_multiset(),
    ).add(q.to_multiset()));
    assert forall|e: i32| x.to_multiset().count(e) == y.to_multiset().count(e) by {
        assert(p.to_multiset().add(x.to_multiset()).add(q.to_multiset()).count(e)
            == p.to_multiset().add(y.to_multiset()).add(q.to_multiset()).count(e));
    }
    assert(x.to_multiset() =~= y.to_multiset());
}

/// Every value of a multiset-equal sequence respects the same upper bound.
proof fn lemma_le_bound_transfers(s1: Seq<i32>, s2: Seq<i32>, x: i32)
    requires
        s1.to_multiset() == s2.to_multiset(),
        forall|i: int| 0 <= i < s1.len() ==> s1[i] <= x,
    ensures
        forall|i: int| 0 <= i < s2.len() ==> s2[i] <= x,
{
    broadcast use group_to_multiset_ensures;

    assert forall|i: int| 0 <= i < s2.len() implies s2[i] <= x by {
        assert(s2.contains(s2[i]));
        assert(s2.to_multiset().count(s2[i]) > 0);
        assert(s1.to_multiset().count(s2[i]) > 0);
        assert(s1.contains(s2[i]));
        let j = choose|j: int| 0 <= j < s1.len() && s1[j] == s2[i];
    }
}

/// Every value of a multiset-equal sequence respects the same lower bound.
proof fn lemma_ge_bound_transfers(s1: Seq<i32>, s2: Seq<i32>, x: i32)
    requires
        s1.to_multiset() == s2.to_multiset(),
        forall|i: int| 0 <= i < s1.len() ==> s1[i] >= x,
    ensures
        forall|i: int| 0 <= i < s2.len() ==> s2[i] >= x,
{
    broadcast use group_to_multiset_ensures;

    assert forall|i: int| 0 <= i < s2.len() implies s2[i] >= x by {
        assert(s2.contains(s2[i]));
        assert(s2.to_multiset().count(s2[i]) > 0);
        assert(s1.to_multiset().count(s2[i]) > 0);
        assert(s1.contains(s2[i]));
        let j = choose|j: int| 0 <= j < s1.len() && s1[j] == s2[i];
    }
}

/// Hoare-style partition of `array[low..=high]` around the pivot
/// `array[low]`: two converging cursors skip the elements already on the
/// correct side and overwrite as they cross, and the pivot lands in its
/// final resting position, which is returned.
fn partition(array: &mut Vec<i32>, low: usize, high: usize) -> (p: usize)
    requires
        low < high,
        high < old(array)@.len(),
    ensures
        low <= p <= high,
        final(array)@.len() == old(array)@.len(),
        final(array)@.to_multiset() == old(array)@.to_multiset(),
        forall|i: int| low <= i < p ==> final(array)@[i] <= final(array)@[p as int],
        forall|i: int| p < i <= high ==> final(array)@[i] >= final(array)@[p as int],
        forall|i: int| 0 <= i < low ==> final(array)@[i] == old(array)@[i],
        forall|i: int| high < i < old(array)@.len() ==> final(array)@[i] == old(array)@[i],
    decreases high - low,
{
    let pivot = array[low];
    let mut left = low;
    let mut right = high;
    proof {
        assert(array@.update(low as int, pivot) =~= array@);
    }
    while left < right
        invariant
            low <= left <= right <= high,
            high < array@.len(),
            array@.len() == old(array)@.len(),
            array@.update(left as int, pivot).to_multiset() == old(array)@.to_multiset(),
            forall|i: int| low <= i < left ==> array@[i] <= pivot,
            forall|i: int| right < i <= high ==> array@[i] >= pivot,
            forall|i: int| 0 <= i < low ==> array@[i] == old(array)@[i],
            forall|i: int| high < i < array@.len() ==> array@[i] == old(array)@[i],
        decreases right - left,
    {
        while left < right && array[right] >= pivot
            invariant
                low <= left <= right <= high,
                high < array@.len(),
                array@.len() == old(array)@.len(),
                array@.update(left as int, pivot).to_multiset() == old(array)@.to_multiset(),
                forall|i: int| low <= i < left ==> array@[i] <= pivot,
                forall|i: int| right < i <= high ==> array@[i] >= pivot,
                forall|i: int| 0 <= i < low ==> array@[i] == old(array)@[i],
                forall|i: int| high < i < array@.len() ==> array@[i] == old(array)@[i],
            decreases right,
        {
            right = right - 1;
        }
        let ghost s_a = array@;
        let v = array[right];
        array[left] = v;
        proof {
            if left < right {
                lemma_hole_shift(s_a, left as int, right as int, pivot);
            } else {
                assert(array@ =~= s_a);
            }
        }
        while left < right && array[left] <= pivot
            invariant
                low <= left <= right <= high,
                high < array@.len(),
                array@.len() == old(array)@.len(),
                array@.update(right as int, pivot).to_multiset() == old(array)@.to_multiset(),
                forall|i: int| low <= i < left ==> array@[i] <= pivot,
                forall|i: int| right < i <= high ==> array@[i] >= pivot,
                forall|i: int| 0 <= i < low ==> array@[i] == old(array)@[i],
                forall|i: int| high < i < array@.len() ==> array@[i] == old(array)@[i],
            decreases right - left,
        {
            left = left + 1;
        }
        let ghost s_b = array@;
        let v2 = array[left];
        array[right] = v2;
        proof {
            if left < right {
                lemma_hole_shift(s_b, right as int, left as int, pivot);
            } else {
                assert(array@ =~= s_b);
            }
        }
    }
    let ghost s_c = array@;
    array[left] = pivot;
    proof {
        assert(array@ == s_c.update(left as int, pivot));
    }
    left
}

/// Sorts `array[low..=high]` (both bounds inclusive) in place, ascending,
/// by recursive partitioning; a call with `low >= high` changes nothing.
/// The result always holds the same multiset of values as the input — it is
/// a permutation — and the positions outside `low..=high` are untouched.
pub fn quick(array: &mut Vec<i32>, low: usize, high: usize)
    requires
        low < high ==> high < old(array)@.len(),
    ensures
        final(array)@.len() == old(array)@.len(),
        final(array)@.to_multiset() == old(array)@.to_multiset(),
        forall|i: int| 0 <= i < low ==> final(array)@[i] == old(array)@[i],
        forall|i: int| high < i < old(array)@.len() ==> final(array)@[i] == old(array)@[i],
        sorted_between(final(array)@, low as int, high as int),
        low >= high ==> final(array)@ == old(array)@,
    decreases (if low < high { high - low } else { 0 }),
{
    if low < high {
        let ghost s0 = array@;
        let pivot_loc = partition(array, low, high);
        let n = array.len();
        proof {
            assert(pivot_loc < n);
        }
        let ghost s1 = array@;
        let ghost p = pivot_loc as int;
        let ghost pv = s1[p];
        let left_high = pivot_loc.saturating_sub(1);
        quick(array, low, left_high);
        let ghost s2 = array@;
        proof {
            assert(forall|i: int| p <= i < s2.len() ==> s2[i] == s1[i]);
            if low + 1 < p {
                lemma_multiset_of_frame(s1, s2, low as int, p);
                lemma_le_bound_transfers(
                    s1.subrange(low as int, p),
                    s2.subrange(low as int, p),
                    pv,
                );
            }
            assert(forall|i: int| low <= i < p ==> s2[i] <= pv) by {
                assert(forall|i: int|
                    low <= i < p ==> s2[i] == s2.subrange(low as int, p)[i - low]);
            }
        }
        quick(array, pivot_loc + 1, high);
        let ghost s3 = array@;
        proof {
            assert(forall|i: int| 0 <= i <= p ==> s3[i] == s2[i]);
            if p + 1 < high {
                lemma_multiset_of_frame(s2, s3, p + 1, high + 1);
                lemma_ge_bound_transfers(
                    s2.subrange(p + 1, high + 1),
                    s3.subrange(p + 1, high + 1),
                    pv,
                );
            }
            assert(forall|i: int| p < i <= high ==> s2[i] >= pv);
            assert(forall|i: int| p < i <= high ==> s3[i] >= pv) by {
                assert(forall|i: int|
                    p < i <= high ==> s3[i] == s3.subrange(p + 1, high + 1)[i - p - 1]);
                assert(forall|i: int|
                    p < i <= high ==> s2[i] == s2.subrange(p + 1, high + 1)[i - p - 1]);
            }
            assert(s3[p] == pv);
            assert forall|i: int, j: int|
                low <= i <= j <= high && 0 <= i && j < s3.len() implies s3[i] <= s3[j] by {
                if j < p {
                    assert(s3[i] == s2[i] && s3[j] == s2[j]);
                    assert(sorted_between(s2, low as int, left_high as int));
                } else if i > p {
                    assert(sorted_between(s3, p + 1, high as int));
                } else if i < p && j == p {
                    assert(s3[i] == s2[i] && s2[i] <= pv);
                } else if i < p && j > p {
                    assert(s3[i] == s2[i] && s2[i] <= pv);
                } else if i == p && j > p {
                    assert(s3[j] >= pv);
                }
            }
        }
    }
}

/// A sorted permutation is unique: two ascending sequences that hold the
/// same multiset of values are equal. In particular `quick` is idempotent —
/// sorting an already-sorted array yields the same array — because its
/// result is always an ascending permutation of its input.
pub proof fn lemma_sorted_permutation_unique(s: Seq<i32>, t: Seq<i32>)
    requires
        sorted_between(s, 0, s.len() - 1),
        sorted_between(t, 0, t.len() - 1),
        s.to_multiset() == t.to_multiset(),
    ensures
        s == t,
{
    let leq = |x: i32, y: i32| x <= y;
    assert(total_ordering(leq));
    assert(sorted_by(s, leq));
    assert(sorted_by(t, leq));
    lemma_sorted_unique(s, t, leq);
    assert(s =~= t);
}

} // verus!
