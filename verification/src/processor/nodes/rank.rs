//! Order statistics of byte sequences (medians and percentiles).

use crate::capture::vec_filled;
use vstd::prelude::*;

verus! {

/// Number of elements of `s` strictly below `v`.
pub open spec fn count_below(s: Seq<u8>, v: int) -> nat
    decreases s.len(),
{
    if s.len() == 0 {
        0
    } else {
        count_below(s.drop_last(), v) + if (s.last() as int) < v {
            1nat
        } else {
            0nat
        }
    }
}

/// Number of elements of `s` equal to `v`.
pub open spec fn count_equal(s: Seq<u8>, v: int) -> nat
    decreases s.len(),
{
    if s.len() == 0 {
        0
    } else {
        count_equal(s.drop_last(), v) + if (s.last() as int) == v {
            1nat
        } else {
            0nat
        }
    }
}

/// `v` is the element at index `k` of `s` sorted ascending: at most `k`
/// elements lie below it and more than `k` lie at or below it.
pub open spec fn is_rank_value(s: Seq<u8>, k: int, v: u8) -> bool {
    count_below(s, v as int) <= k < count_below(s, v + 1)
}

/// The element at index `k` of `s` sorted ascending (`0 <= k < s.len()`).
pub open spec fn rank_value(s: Seq<u8>, k: int) -> u8 {
    choose|v: u8| is_rank_value(s, k, v)
}

/// Counting below `v + 1` counts the elements below `v` and those equal to it.
pub proof fn lemma_count_below_step(s: Seq<u8>, v: int)
    ensures
        count_below(s, v + 1) == count_below(s, v) + count_equal(s, v),
    decreases s.len(),
{
    if s.len() > 0 {
        lemma_count_below_step(s.drop_last(), v);
    }
}

/// Nothing lies below 0; everything lies below 256; counts never exceed the
/// length.
pub proof fn lemma_count_below_bounds(s: Seq<u8>, v: int)
    ensures
        count_below(s, v) <= s.len(),
        v <= 0 ==> count_below(s, v) == 0,
        v >= 256 ==> count_below(s, v) == s.len(),
    decreases s.len(),
{
    if s.len() > 0 {
        lemma_count_below_bounds(s.drop_last(), v);
    }
}

/// Counting below a larger bound counts at least as many elements.
pub proof fn lemma_count_below_monotone(s: Seq<u8>, a: int, b: int)
    requires
        a <= b,
    ensures
        count_below(s, a) <= count_below(s, b),
    decreases s.len(),
{
    if s.len() > 0 {
        lemma_count_below_monotone(s.drop_last(), a, b);
    }
}

/// An element that occurs at least once occurs at some index.
pub proof fn lemma_count_equal_positive(s: Seq<u8>, v: int)
    requires
        count_equal(s, v) > 0,
    ensures
        exists|i: int| 0 <= i < s.len() && s[i] as int == v,
    decreases s.len(),
{
    if (s.last() as int) != v {
        lemma_count_equal_positive(s.drop_last(), v);
        let i = choose|i: int| 0 <= i < s.drop_last().len() && s.drop_last()[i] as int == v;
        assert(s[i] as int == v);
    } else {
        assert(s[s.len() - 1] as int == v);
    }
}

/// The value at a given rank is unique.
pub proof fn lemma_rank_value_unique(s: Seq<u8>, k: int, v: u8, w: u8)
    requires
        is_rank_value(s, k, v),
        is_rank_value(s, k, w),
    ensures
        v == w,
{
    if v < w {
        lemma_count_below_monotone(s, v + 1, w as int);
    } else if w < v {
        lemma_count_below_monotone(s, w + 1, v as int);
    }
}

/// Searching upward from a value with at most `k` elements below it finds a
/// value whose rank range holds `k`.
proof fn lemma_rank_search(s: Seq<u8>, k: int, v: int) -> (w: u8)
    requires
        0 <= v <= 255,
        count_below(s, v) <= k < s.len(),
    ensures
        is_rank_value(s, k, w),
    decreases 255 - v,
{
    lemma_count_below_bounds(s, 256);
    if count_below(s, v + 1) > k {
        v as u8
    } else {
        if v == 255 {
            assert(false);
        }
        lemma_rank_search(s, k, v + 1)
    }
}

/// Every in-range rank has a value, and that value occurs in `s`.
pub proof fn lemma_rank_value_exists(s: Seq<u8>, k: int)
    requires
        0 <= k < s.len(),
    ensures
        is_rank_value(s, k, rank_value(s, k)),
        exists|i: int| 0 <= i < s.len() && s[i] == rank_value(s, k),
{
    lemma_count_below_bounds(s, 0);
    let w = lemma_rank_search(s, k, 0);
    let v = rank_value(s, k);
    assert(is_rank_value(s, k, v));
    lemma_count_below_step(s, v as int);
    lemma_count_equal_positive(s, v as int);
}

/// Removing element `j` lowers the count of its value by one and leaves
/// the other counts alone.
pub proof fn lemma_count_equal_remove(s: Seq<u8>, j: int, v: int)
    requires
        0 <= j < s.len(),
    ensures
        count_equal(s, v) == count_equal(s.remove(j), v) + if s[j] as int == v {
            1nat
        } else {
            0nat
        },
    decreases s.len(),
{
    if j == s.len() - 1 {
        assert(s.remove(j) =~= s.drop_last());
    } else {
        lemma_count_equal_remove(s.drop_last(), j, v);
        assert(s.remove(j).drop_last() =~= s.drop_last().remove(j));
        assert(s.remove(j).last() == s.last());
    }
}

/// Sequences with the same count of every value have the same number of
/// elements below every bound.
pub proof fn lemma_count_below_same_counts(s: Seq<u8>, t: Seq<u8>, v: int)
    requires
        0 <= v <= 256,
        forall|b: int| 0 <= b < 256 ==> #[trigger] count_equal(s, b) == count_equal(t, b),
    ensures
        count_below(s, v) == count_below(t, v),
    decreases v,
{
    if v == 0 {
        lemma_count_below_bounds(s, 0);
        lemma_count_below_bounds(t, 0);
    } else {
        lemma_count_below_same_counts(s, t, v - 1);
        lemma_count_below_step(s, v - 1);
        lemma_count_below_step(t, v - 1);
        assert(count_equal(s, v - 1) == count_equal(t, v - 1));
    }
}

/// Sequences of one length with the same count of every value have the same
/// value at every rank: the order of the elements does not matter.
pub proof fn lemma_rank_value_same_counts(s: Seq<u8>, t: Seq<u8>, k: int)
    requires
        0 <= k < s.len(),
        s.len() == t.len(),
        forall|b: int| 0 <= b < 256 ==> #[trigger] count_equal(s, b) == count_equal(t, b),
    ensures
        rank_value(s, k) == rank_value(t, k),
{
    lemma_rank_value_exists(s, k);
    lemma_rank_value_exists(t, k);
    let v = rank_value(s, k);
    lemma_count_below_same_counts(s, t, v as int);
    lemma_count_below_same_counts(s, t, v + 1);
    assert(is_rank_value(t, k, v));
    lemma_rank_value_unique(t, k, v, rank_value(t, k));
}

/// The value at rank `k` of `s` sorted ascending, found with a histogram.
pub fn select_rank(s: &[u8], k: usize) -> (r: u8)
    requires
        k < s@.len(),
    ensures
        r == rank_value(s@, k as int),
        is_rank_value(s@, k as int, r),
{
    let len = s.len();
    let mut hist: Vec<usize> = vec_filled(0usize, 256);
    let mut i: usize = 0;
    while i < len
        invariant
            i <= len,
            len == s@.len(),
            hist@.len() == 256,
            forall|b: int| 0 <= b < 256 ==> #[trigger] hist@[b] == count_equal(s@.take(i as int), b),
            forall|b: int| 0 <= b < 256 ==> #[trigger] hist@[b] <= i,
        decreases len - i,
    {
        let v = s[i];
        proof {
            assert(s@.take(i + 1).drop_last() =~= s@.take(i as int));
            assert(s@.take(i + 1).last() == v);
        }
        let old_count = hist[v as usize];
        hist.set(v as usize, old_count + 1);
        i = i + 1;
    }
    proof {
        assert(s@.take(len as int) =~= s@);
        lemma_count_below_bounds(s@, 0);
        lemma_count_below_bounds(s@, 256);
    }
    let mut cum: usize = 0;
    let mut v: usize = 0;
    while v < 256
        invariant
            v <= 256,
            hist@.len() == 256,
            forall|b: int| 0 <= b < 256 ==> #[trigger] hist@[b] == count_equal(s@, b),
            cum == count_below(s@, v as int),
            cum <= k,
            k < s@.len(),
            count_below(s@, 256) == s@.len(),
        decreases 256 - v,
    {
        proof {
            lemma_count_below_step(s@, v as int);
            lemma_count_below_bounds(s@, v + 1);
        }
        let h = hist[v];
        if h > k - cum {
            let r = v as u8;
            proof {
                assert(is_rank_value(s@, k as int, r));
                lemma_rank_value_exists(s@, k as int);
                lemma_rank_value_unique(s@, k as int, r, rank_value(s@, k as int));
            }
            return r;
        }
        cum = cum + h;
        v = v + 1;
    }
    proof {
        assert(false);
    }
    0
}

} // verus!
