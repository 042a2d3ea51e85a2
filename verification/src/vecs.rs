//! Small verified helpers on vectors: appending a value and its successor
//! by two, and turning a removal order into the positions to remove at.

use vstd::prelude::*;

verus! {

/// Appends `a` and `a + 2` to the vector, in that order.
pub fn add_a_and_a_plus_2(x: Vec<i32>, a: i32) -> (r: Vec<i32>)
    requires
        a + 2 <= i32::MAX,
    ensures
        r@ == x@.push(a).push((a + 2) as i32),
{
    let mut x = x;
    x.push(a);
    x.push(a + 2);
    x
}

/// How many of the first `upto` entries of `s` are smaller than `v`.
pub open spec fn count_less(s: Seq<usize>, upto: int, v: int) -> int
    decreases upto,
{
    if upto <= 0 {
        0
    } else {
        count_less(s, upto - 1, v) + if s[upto - 1] < v {
            1int
        } else {
            0int
        }
    }
}

/// How many of the first `upto` entries of `s` equal `v`.
pub open spec fn count_eq(s: Seq<usize>, upto: int, v: int) -> int
    decreases upto,
{
    if upto <= 0 {
        0
    } else {
        count_eq(s, upto - 1, v) + if s[upto - 1] == v {
            1int
        } else {
            0int
        }
    }
}

proof fn lemma_count_less_split(s: Seq<usize>, upto: int, v: int)
    ensures
        count_less(s, upto, v) == count_less(s, upto, v - 1) + count_eq(s, upto, v - 1),
    decreases upto,
{
    if upto > 0 {
        lemma_count_less_split(s, upto - 1, v);
    }
}

proof fn lemma_count_eq_absent(s: Seq<usize>, upto: int, v: int)
    requires
        forall|j: int| 0 <= j < upto ==> s[j] != v,
    ensures
        count_eq(s, upto, v) == 0,
    decreases upto,
{
    if upto > 0 {
        lemma_count_eq_absent(s, upto - 1, v);
    }
}

proof fn lemma_count_eq_at_most_one(s: Seq<usize>, upto: int, v: int)
    requires
        upto <= s.len(),
        forall|j: int, k: int| 0 <= j < k < s.len() ==> s[j] != s[k],
    ensures
        count_eq(s, upto, v) <= 1,
    decreases upto,
{
    if upto > 0 {
        if s[upto - 1] == v {
            assert(forall|j: int| 0 <= j < upto - 1 ==> s[j] != v);
            lemma_count_eq_absent(s, upto - 1, v);
        } else {
            lemma_count_eq_at_most_one(s, upto - 1, v);
        }
    }
}

proof fn lemma_count_less_zero(s: Seq<usize>, upto: int)
    ensures
        count_less(s, upto, 0) == 0,
    decreases upto,
{
    if upto > 0 {
        lemma_count_less_zero(s, upto - 1);
    }
}

/// Pigeonhole: among pairwise distinct entries, fewer than `v + 1` can lie
/// below `v`.
proof fn lemma_count_less_bound(s: Seq<usize>, upto: int, v: int)
    requires
        upto <= s.len(),
        v >= 0,
        forall|j: int, k: int| 0 <= j < k < s.len() ==> s[j] != s[k],
    ensures
        count_less(s, upto, v) <= v,
    decreases v,
{
    if v == 0 {
        lemma_count_less_zero(s, upto);
    } else {
        lemma_count_less_bound(s, upto, v - 1);
        lemma_count_less_split(s, upto, v);
        lemma_count_eq_at_most_one(s, upto, v - 1);
    }
}

/// The position at which to remove the element originally at index `s[i]`,
/// once the elements named by `s[..i]` are already gone: each earlier
/// removal below it shifts it down by one. When `s` names each index at
/// most once the count never exceeds `s[i]`; on other inputs the position
/// saturates at zero.
pub open spec fn adjusted_position(s: Seq<usize>, i: int) -> int {
    if count_less(s, i, s[i] as int) <= s[i] {
        s[i] - count_less(s, i, s[i] as int)
    } else {
        0
    }
}

/// When a removal order names each index at most once, the removal count
/// below an index never exceeds the index itself: the adjusted position is
/// the exact difference.
pub proof fn lemma_removal_positions_exact(s: Seq<usize>, i: int)
    requires
        0 <= i < s.len(),
        forall|j: int, k: int| 0 <= j < k < s.len() ==> s[j] != s[k],
    ensures
        count_less(s, i, s[i] as int) <= s[i],
        adjusted_position(s, i) == s[i] - count_less(s, i, s[i] as int),
{
    lemma_count_less_bound(s, i, s[i] as int);
}

/// Turns a removal order given in original indices into the sequence of
/// positions to remove at, one by one, in a vector that shrinks as elements
/// leave it.
pub fn removal_positions(order: &Vec<usize>) -> (r: Vec<usize>)
    ensures
        r@.len() == order@.len(),
        forall|i: int| 0 <= i < order@.len() ==> r@[i] == adjusted_position(order@, i),
{
    let n = order.len();
    let mut r: Vec<usize> = Vec::new();
    for i in 0..n
        invariant
            n == order@.len(),
            r@.len() == i,
            forall|k: int| 0 <= k < i ==> r@[k] == adjusted_position(order@, k),
    {
        let v = order[i];
        let mut cnt: usize = 0;
        for j in 0..i
            invariant
                n == order@.len(),
                i < n,
                v == order@[i as int],
                cnt == count_less(order@, j as int, v as int),
                cnt <= j,
        {
            if order[j] < v {
                cnt = cnt + 1;
            }
        }
        if cnt <= v {
            r.push(v - cnt);
        } else {
            r.push(0);
        }
    }
    r
}

} // verus!
