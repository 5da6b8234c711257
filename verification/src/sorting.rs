//! Two in-place sorts of a vector of integers: bubble sort and quicksort.
//!
//! Both leave the vector in ascending order and keep its items: the multiset
//! of the items after a sort is the multiset before it.

use vstd::prelude::*;
use vstd::seq_lib::{lemma_multiset_commutative, to_multiset_contains, to_multiset_update};

verus! {

/// The items of `s` from `lo` up to, not including, `hi` are in ascending
/// order.
pub open spec fn sorted_between(s: Seq<i32>, lo: int, hi: int) -> bool {
    forall|a: int, b: int| lo <= a <= b < hi ==> s[a] <= s[b]
}

/// The whole of `s` is in ascending order.
pub open spec fn sorted(s: Seq<i32>) -> bool {
    sorted_between(s, 0, s.len() as int)
}

/// `s` with the items at `i` and `j` exchanged.
pub open spec fn swapped(s: Seq<i32>, i: int, j: int) -> Seq<i32> {
    s.update(i, s[j]).update(j, s[i])
}

/// The item at `p` splits the items from `lo` to `hi`, both included: none
/// before it is greater, and all after it are.
pub open spec fn partitioned_at(s: Seq<i32>, lo: int, p: int, hi: int) -> bool {
    &&& lo <= p <= hi
    &&& forall|j: int| lo <= j < p ==> s[j] <= s[p]
    &&& forall|j: int| p < j <= hi ==> s[j] > s[p]
}

/// `s` and `t` agree everywhere but from `lo` up to, not including, `hi`.
pub open spec fn same_outside(s: Seq<i32>, t: Seq<i32>, lo: int, hi: int) -> bool {
    &&& s.len() == t.len()
    &&& forall|j: int| 0 <= j < s.len() && !(lo <= j < hi) ==> s[j] == t[j]
}

/// The number of items from `lo` to `hi` beyond the first.
pub open spec fn span(lo: usize, hi: usize) -> nat {
    if lo < hi {
        (hi - lo) as nat
    } else {
        0
    }
}

/// Exchanging two items keeps the multiset of the items.
pub proof fn lemma_swap_keeps_multiset(s: Seq<i32>, i: int, j: int)
    requires
        0 <= i < s.len(),
        0 <= j < s.len(),
    ensures
        swapped(s, i, j).to_multiset() == s.to_multiset(),
{
    broadcast use vstd::multiset::group_multiset_axioms;

    assert(s.contains(s[i]));
    assert(s.contains(s[j]));
    to_multiset_contains(s, s[i]);
    to_multiset_contains(s, s[j]);
    to_multiset_update(s, i, s[j]);
    to_multiset_update(s.update(i, s[j]), j, s[i]);
    assert(swapped(s, i, j).to_multiset() =~= s.to_multiset());
}

/// Exchanging two items of a range keeps the multiset of the range.
pub proof fn lemma_swap_keeps_range(s: Seq<i32>, lo: int, hi: int, i: int, j: int)
    requires
        0 <= lo <= i < hi <= s.len(),
        lo <= j < hi,
    ensures
        swapped(s, i, j).subrange(lo, hi).to_multiset() == s.subrange(lo, hi).to_multiset(),
{
    assert(swapped(s, i, j).subrange(lo, hi) =~= swapped(s.subrange(lo, hi), i - lo, j - lo));
    lemma_swap_keeps_multiset(s.subrange(lo, hi), i - lo, j - lo);
}

/// If two sequences hold the same items between `lo` and `hi` and agree
/// elsewhere, they hold the same items in any wider range.
pub proof fn lemma_range_widens(s: Seq<i32>, t: Seq<i32>, lo: int, hi: int, a: int, b: int)
    requires
        0 <= a <= lo <= hi <= b <= s.len(),
        same_outside(s, t, lo, hi),
        s.subrange(lo, hi).to_multiset() == t.subrange(lo, hi).to_multiset(),
    ensures
        s.subrange(a, b).to_multiset() == t.subrange(a, b).to_multiset(),
{
    let s_head = s.subrange(a, lo);
    let s_mid = s.subrange(lo, hi);
    let s_tail = s.subrange(hi, b);
    let t_head = t.subrange(a, lo);
    let t_mid = t.subrange(lo, hi);
    let t_tail = t.subrange(hi, b);
    assert(s.subrange(a, b) =~= (s_head + s_mid) + s_tail);
    assert(t.subrange(a, b) =~= (t_head + t_mid) + t_tail);
    assert(s_head =~= t_head);
    assert(s_tail =~= t_tail);
    lemma_multiset_commutative(s_head, s_mid);
    lemma_multiset_commutative(s_head + s_mid, s_tail);
    lemma_multiset_commutative(t_head, t_mid);
    lemma_multiset_commutative(t_head + t_mid, t_tail);
}

/// Two sequences with the same items have the same upper and lower bounds.
pub proof fn lemma_same_items_same_bounds(s: Seq<i32>, t: Seq<i32>, bound: i32)
    requires
        s.to_multiset() == t.to_multiset(),
    ensures
        (forall|i: int| 0 <= i < s.len() ==> s[i] <= bound) ==> (forall|i: int|
            0 <= i < t.len() ==> t[i] <= bound),
        (forall|i: int| 0 <= i < s.len() ==> s[i] > bound) ==> (forall|i: int|
            0 <= i < t.len() ==> t[i] > bound),
{
    assert forall|i: int| 0 <= i < t.len() implies s.contains(#[trigger] t[i]) by {
        assert(t.contains(t[i]));
        to_multiset_contains(t, t[i]);
        to_multiset_contains(s, t[i]);
    }
    if forall|i: int| 0 <= i < s.len() ==> s[i] <= bound {
        assert forall|i: int| 0 <= i < t.len() implies t[i] <= bound by {
            assert(s.contains(t[i]));
        }
    }
    if forall|i: int| 0 <= i < s.len() ==> s[i] > bound {
        assert forall|i: int| 0 <= i < t.len() implies t[i] > bound by {
            assert(s.contains(t[i]));
        }
    }
}

/// Exchanges the items at `i` and `j`.
fn swap_items(vec: &mut Vec<i32>, i: usize, j: usize)
    requires
        i < old(vec).len(),
        j < old(vec).len(),
    ensures
        final(vec)@ == swapped(old(vec)@, i as int, j as int),
        final(vec)@.to_multiset() == old(vec)@.to_multiset(),
{
    let first: i32 = vec[i];
    let second: i32 = vec[j];
    vec[i] = second;
    vec[j] = first;
    proof {
        lemma_swap_keeps_multiset(old(vec)@, i as int, j as int);
    }
}

/// Whether `vec` is in ascending order.
pub fn is_sorted(vec: &Vec<i32>) -> (r: bool)
    ensures
        r == sorted(vec@),
{
    let mut i: usize = 1;
    while i < vec.len()
        invariant
            1 <= i,
            sorted_between(vec@, 0, i as int),
        decreases vec.len() - i,
    {
        if vec[i - 1] > vec[i] {
            return false;
        }
        i += 1;
    }
    true
}

/// Sorts `vec` in ascending order by passes that exchange neighbours out of
/// order, until a pass exchanges none.
pub fn bubble_sort(vec: &mut Vec<i32>)
    ensures
        sorted(final(vec)@),
        final(vec)@.to_multiset() == old(vec)@.to_multiset(),
        final(vec)@.len() == old(vec)@.len(),
{
    let mut n: usize = vec.len();
    let mut swapped: bool = true;
    while swapped && n > 0
        invariant
            n <= vec.len(),
            vec@.len() == old(vec)@.len(),
            vec@.to_multiset() == old(vec)@.to_multiset(),
            sorted_between(vec@, n as int, vec@.len() as int),
            forall|a: int, b: int| 0 <= a < n <= b < vec@.len() ==> vec@[a] <= vec@[b],
            !swapped ==> sorted(vec@),
        decreases n,
    {
        swapped = false;
        let mut i: usize = 1;
        while i < n
            invariant
                1 <= i,
                n > 0,
                i <= n,
                n <= vec.len(),
                vec@.len() == old(vec)@.len(),
                vec@.to_multiset() == old(vec)@.to_multiset(),
                sorted_between(vec@, n as int, vec@.len() as int),
                forall|a: int, b: int| 0 <= a < n <= b < vec@.len() ==> vec@[a] <= vec@[b],
                forall|a: int| 0 <= a < i ==> #[trigger] vec@[a] <= vec@[i - 1],
                !swapped ==> sorted_between(vec@, 0, i as int),
            decreases n - i,
        {
            if vec[i - 1] > vec[i] {
                swap_items(vec, i - 1, i);
                swapped = true;
            }
            i += 1;
        }
        n = n - 1;
    }
}

/// Rearranges the items from `lo` to `hi`, both included, around the item
/// that was at `hi`, and returns where that item now is: no item before it
/// in the range is greater, and every item after it in the range is.
/// Items outside the range stay where they were.
///
/// With `lo` after `hi` the range is empty, and the two items are exchanged.
pub fn partition(vec: &mut Vec<i32>, lo: usize, hi: usize) -> (p: usize)
    requires
        lo < old(vec).len(),
        hi < old(vec).len(),
    ensures
        final(vec)@.len() == old(vec)@.len(),
        final(vec)@.to_multiset() == old(vec)@.to_multiset(),
        lo <= hi ==> partitioned_at(final(vec)@, lo as int, p as int, hi as int),
        lo <= hi ==> final(vec)@[p as int] == old(vec)@[hi as int],
        lo <= hi ==> same_outside(final(vec)@, old(vec)@, lo as int, hi + 1),
        lo <= hi ==> final(vec)@.subrange(lo as int, hi + 1).to_multiset() == old(vec)@.subrange(
            lo as int,
            hi + 1,
        ).to_multiset(),
        lo > hi ==> p == lo && final(vec)@ == swapped(old(vec)@, lo as int, hi as int),
{
    let pivot: i32 = vec[hi];
    let mut i: usize = lo;
    let mut j: usize = lo;
    while j < hi
        invariant
            lo <= i <= j,
            lo <= hi ==> j <= hi,
            lo > hi ==> vec@ == old(vec)@ && i == lo,
            hi < vec.len(),
            vec@.len() == old(vec)@.len(),
            vec@[hi as int] == pivot,
            pivot == old(vec)@[hi as int],
            vec@.to_multiset() == old(vec)@.to_multiset(),
            same_outside(vec@, old(vec)@, lo as int, hi + 1),
            vec@.subrange(lo as int, hi + 1).to_multiset() == old(vec)@.subrange(
                lo as int,
                hi + 1,
            ).to_multiset(),
            forall|x: int| lo <= x < i ==> vec@[x] <= pivot,
            forall|x: int| i <= x < j ==> vec@[x] > pivot,
        decreases hi - j,
    {
        if vec[j] <= pivot {
            proof {
                lemma_swap_keeps_range(vec@, lo as int, hi + 1, i as int, j as int);
            }
            swap_items(vec, i, j);
            i = i + 1;
        }
        j = j + 1;
    }
    proof {
        if lo <= hi {
            lemma_swap_keeps_range(vec@, lo as int, hi + 1, i as int, hi as int);
        }
    }
    swap_items(vec, i, hi);
    i
}

/// Sorts the items of `vec` from `lo` to `hi`, both included, in ascending
/// order, and leaves the items outside that range where they were. A range
/// of fewer than two items, and a vector of fewer than two, are left as
/// they are.
pub fn quicksort(vec: &mut Vec<i32>, lo: usize, hi: usize)
    requires
        old(vec).len() >= 2 && lo < hi ==> hi < old(vec).len(),
    ensures
        final(vec)@.len() == old(vec)@.len(),
        final(vec)@.to_multiset() == old(vec)@.to_multiset(),
        same_outside(final(vec)@, old(vec)@, lo as int, hi + 1),
        lo >= hi ==> final(vec)@ == old(vec)@,
        lo <= hi < old(vec)@.len() ==> sorted_between(final(vec)@, lo as int, hi + 1),
        lo <= hi < old(vec)@.len() ==> final(vec)@.subrange(lo as int, hi + 1).to_multiset()
            == old(vec)@.subrange(lo as int, hi + 1).to_multiset(),
    decreases span(lo, hi),
{
    if vec.len() < 2 {
        return ;
    }
    if lo >= hi {
        return ;
    }
    let pivot = partition(vec, lo, hi);
    let ghost parted = vec@;
    if pivot > 0 {
        quicksort(vec, lo, pivot - 1);
    }
    let ghost left_done = vec@;
    if pivot < hi {
        quicksort(vec, pivot + 1, hi);
    }
    proof {
        let done = vec@;
        let p = pivot as int;
        // The items left of the pivot are those that the partition put there.
        let left_before = parted.subrange(lo as int, p);
        let left_after = left_done.subrange(lo as int, p);
        assert forall|x: int| 0 <= x < left_before.len() implies left_before[x] <= parted[p] by {
            assert(left_before[x] == parted[lo + x]);
        }
        lemma_same_items_same_bounds(left_before, left_after, parted[p]);
        assert forall|j: int| lo <= j < p implies done[j] <= done[p] by {
            assert(left_after[j - lo] == left_done[j]);
        }
        // The items right of the pivot likewise.
        let right_before = left_done.subrange(p + 1, hi + 1);
        let right_after = done.subrange(p + 1, hi + 1);
        assert forall|x: int| 0 <= x < right_before.len() implies right_before[x] > parted[p] by {
            assert(right_before[x] == left_done[p + 1 + x]);
        }
        lemma_same_items_same_bounds(right_before, right_after, parted[p]);
        assert forall|j: int| p < j <= hi implies done[j] > done[p] by {
            assert(right_after[j - p - 1] == done[j]);
        }
        assert(sorted_between(done, lo as int, hi + 1));
        // The range as a whole, and the vector, keep their items.
        lemma_range_widens(left_done, parted, lo as int, p, lo as int, hi + 1);
        lemma_range_widens(done, left_done, p + 1, hi + 1, lo as int, hi + 1);
    }
}

} // verus!
