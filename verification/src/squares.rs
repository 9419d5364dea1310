//! The sum of the squares of the even numbers of a sequence.

use vstd::prelude::*;

verus! {

/// What one number adds to the sum: its square if it is even, nothing if it is odd.
pub open spec fn even_square(x: i32) -> int {
    if x % 2 == 0 {
        x * x
    } else {
        0
    }
}

/// The sum of the squares of the even numbers of `s`.
pub open spec fn even_square_sum(s: Seq<i32>) -> int
    decreases s.len(),
{
    if s.len() == 0 {
        0
    } else {
        even_square_sum(s.drop_last()) + even_square(s.last())
    }
}

/// No term is negative, so the sum over a prefix lies between zero and the
/// sum over the whole sequence.
pub proof fn lemma_prefix_sum_bounded(s: Seq<i32>, k: int)
    requires
        0 <= k <= s.len(),
    ensures
        0 <= even_square_sum(s.take(k)) <= even_square_sum(s),
    decreases s.len() - k,
{
    if k == s.len() {
        assert(s.take(k) =~= s);
        lemma_sum_nonnegative(s);
    } else {
        lemma_prefix_sum_bounded(s, k + 1);
        lemma_sum_nonnegative(s.take(k));
        let longer = s.take(k + 1);
        assert(longer.drop_last() =~= s.take(k));
        assert(longer.last() == s[k]);
        assert(even_square(s[k]) >= 0) by (nonlinear_arith);
    }
}

/// The sum is never negative.
pub proof fn lemma_sum_nonnegative(s: Seq<i32>)
    ensures
        0 <= even_square_sum(s),
    decreases s.len(),
{
    if s.len() > 0 {
        lemma_sum_nonnegative(s.drop_last());
        assert(even_square(s.last()) >= 0) by (nonlinear_arith);
    }
}

/// The sum of the squares of the even numbers of `v`, or `None` where that
/// sum does not fit in an `i32`.
pub fn checked_expensive_sum(v: &Vec<i32>) -> (sum: Option<i32>)
    ensures
        even_square_sum(v@) <= i32::MAX ==> sum == Some(even_square_sum(v@) as i32),
        even_square_sum(v@) > i32::MAX ==> sum.is_none(),
{
    let mut total: i64 = 0;
    let mut i: usize = 0;
    while i < v.len()
        invariant
            0 <= i <= v.len(),
            total == even_square_sum(v@.take(i as int)),
            0 <= total <= i32::MAX,
        decreases v.len() - i,
    {
        let x: i32 = v[i];
        proof {
            let longer = v@.take(i + 1);
            assert(longer.drop_last() =~= v@.take(i as int));
            assert(longer.last() == x);
            lemma_prefix_sum_bounded(v@, i + 1);
        }
        if x % 2 == 0 {
            let wide: i64 = x as i64;
            assert(0 <= wide * wide <= 0x4000_0000_0000_0000) by (nonlinear_arith)
                requires
                    -0x8000_0000 <= wide <= 0x7fff_ffff,
            ;
            let square: i64 = wide * wide;
            if square > i32::MAX as i64 - total {
                return None;
            }
            total = total + square;
        }
        i = i + 1;
    }
    proof {
        assert(v@.take(v.len() as int) =~= v@);
    }
    Some(total as i32)
}

/// The sum of the squares of the even numbers of `v`.
///
/// The sum has to fit in an `i32`; `checked_expensive_sum` tells whether it does.
pub fn expensive_sum(v: Vec<i32>) -> (sum: i32)
    requires
        even_square_sum(v@) <= i32::MAX,
    ensures
        sum == even_square_sum(v@),
{
    let mut sum: i32 = 0;
    let mut i: usize = 0;
    while i < v.len()
        invariant
            0 <= i <= v.len(),
            sum == even_square_sum(v@.take(i as int)),
            even_square_sum(v@) <= i32::MAX,
        decreases v.len() - i,
    {
        let x: i32 = v[i];
        proof {
            let longer = v@.take(i + 1);
            assert(longer.drop_last() =~= v@.take(i as int));
            assert(longer.last() == x);
            lemma_prefix_sum_bounded(v@, i as int);
            lemma_prefix_sum_bounded(v@, i + 1);
        }
        if x % 2 == 0 {
            assert(0 <= x * x) by (nonlinear_arith);
            sum = sum + x * x;
        }
        i = i + 1;
    }
    proof {
        assert(v@.take(v.len() as int) =~= v@);
    }
    sum
}

} // verus!
