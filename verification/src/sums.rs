//! Sums over sequences of integers, used to account for vertex, index and
//! byte totals while the batcher folds meshes together and the atlas packer
//! sizes its texture.

use vstd::prelude::*;

verus! {

/// Sum of a sequence of integers.
pub open spec fn int_sum(s: Seq<int>) -> int
    decreases s.len(),
{
    if s.len() == 0 {
        0
    } else {
        s[0] + int_sum(s.drop_first())
    }
}

/// Appending an element adds its value to the sum.
pub proof fn lemma_int_sum_push(s: Seq<int>, x: int)
    ensures
        int_sum(s.push(x)) == int_sum(s) + x,
    decreases s.len(),
{
    let t = s.push(x);
    assert(t.len() == s.len() + 1);
    assert(int_sum(t) == t[0] + int_sum(t.drop_first()));
    if s.len() == 0 {
        assert(t[0] == x);
        assert(t.drop_first() =~= Seq::<int>::empty());
        assert(int_sum(t.drop_first()) == 0);
    } else {
        assert(t[0] == s[0]);
        assert(t.drop_first() =~= s.drop_first().push(x));
        lemma_int_sum_push(s.drop_first(), x);
        assert(int_sum(s) == s[0] + int_sum(s.drop_first()));
    }
}

/// Replacing an element changes the sum by the difference.
pub proof fn lemma_int_sum_update(s: Seq<int>, i: int, x: int)
    requires
        0 <= i < s.len(),
    ensures
        int_sum(s.update(i, x)) == int_sum(s) - s[i] + x,
    decreases s.len(),
{
    if i == 0 {
        assert(s.update(0, x).drop_first() =~= s.drop_first());
    } else {
        assert(s.update(i, x).drop_first() =~= s.drop_first().update(i - 1, x));
        lemma_int_sum_update(s.drop_first(), i - 1, x);
    }
}

/// A sum of non-negative values is non-negative.
pub proof fn lemma_int_sum_nonneg(s: Seq<int>)
    requires
        forall|i: int| 0 <= i < s.len() ==> s[i] >= 0,
    ensures
        int_sum(s) >= 0,
    decreases s.len(),
{
    if s.len() > 0 {
        lemma_int_sum_nonneg(s.drop_first());
    }
}

/// Among non-negative values, each element is at most the whole sum.
pub proof fn lemma_int_sum_elem_bound(s: Seq<int>, i: int)
    requires
        forall|j: int| 0 <= j < s.len() ==> s[j] >= 0,
        0 <= i < s.len(),
    ensures
        s[i] <= int_sum(s),
    decreases s.len(),
{
    if i == 0 {
        lemma_int_sum_nonneg(s.drop_first());
    } else {
        lemma_int_sum_elem_bound(s.drop_first(), i - 1);
    }
}

/// A sum splits at any point into the sum of the prefix and of the rest.
pub proof fn lemma_int_sum_split(s: Seq<int>, i: int)
    requires
        0 <= i <= s.len(),
    ensures
        int_sum(s) == int_sum(s.take(i)) + int_sum(s.skip(i)),
    decreases i,
{
    if i == 0 {
        assert(s.take(0) =~= Seq::<int>::empty());
        assert(s.skip(0) =~= s);
    } else {
        assert(s.take(i).drop_first() =~= s.drop_first().take(i - 1));
        assert(s.skip(i) =~= s.drop_first().skip(i - 1));
        assert(s.take(i)[0] == s[0]);
        lemma_int_sum_split(s.drop_first(), i - 1);
        assert(int_sum(s.take(i)) == s[0] + int_sum(s.drop_first().take(i - 1)));
    }
}

/// Removing an element subtracts its value from the sum.
pub proof fn lemma_int_sum_remove(s: Seq<int>, i: int)
    requires
        0 <= i < s.len(),
    ensures
        int_sum(s.remove(i)) == int_sum(s) - s[i],
    decreases s.len(),
{
    if i == 0 {
        assert(s.remove(0) =~= s.drop_first());
    } else {
        assert(s.remove(i).drop_first() =~= s.drop_first().remove(i - 1));
        assert(s.remove(i)[0] == s[0]);
        lemma_int_sum_remove(s.drop_first(), i - 1);
    }
}

/// Among non-negative values, a prefix sums to at most the whole sum.
pub proof fn lemma_int_sum_take_bound(s: Seq<int>, i: int)
    requires
        forall|j: int| 0 <= j < s.len() ==> s[j] >= 0,
        0 <= i <= s.len(),
    ensures
        int_sum(s.take(i)) <= int_sum(s),
    decreases s.len(),
{
    lemma_int_sum_split(s, i);
    assert(forall|j: int| 0 <= j < s.skip(i).len() ==> s.skip(i)[j] >= 0);
    lemma_int_sum_nonneg(s.skip(i));
}

} // verus!
