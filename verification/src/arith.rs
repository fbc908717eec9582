//! Saturating 32-bit arithmetic with exact specifications, used when damage
//! amounts are summed and applied to hit points.

use vstd::prelude::*;

verus! {

/// `v` clamped into the `i32` range.
pub open spec fn clamp_i32(v: int) -> int {
    if v > i32::MAX as int {
        i32::MAX as int
    } else if v < i32::MIN as int {
        i32::MIN as int
    } else {
        v
    }
}

/// Saturating sum of a list of amounts, left to right.
pub open spec fn sat_sum(s: Seq<i32>) -> int
    decreases s.len(),
{
    if s.len() == 0 {
        0
    } else {
        clamp_i32(sat_sum(s.drop_last()) + s.last())
    }
}

/// Exact sum of a list of amounts.
pub open spec fn int_sum(s: Seq<i32>) -> int
    decreases s.len(),
{
    if s.len() == 0 {
        0
    } else {
        int_sum(s.drop_last()) + s.last()
    }
}

/// When every amount is nonnegative and the exact total fits, the
/// saturating sum is the exact sum.
pub proof fn lemma_sat_sum_exact(s: Seq<i32>)
    requires
        forall|i: int| 0 <= i < s.len() ==> s[i] >= 0,
        int_sum(s) <= i32::MAX as int,
    ensures
        sat_sum(s) == int_sum(s),
    decreases s.len(),
{
    if s.len() > 0 {
        lemma_int_sum_nonneg(s.drop_last());
        assert(s.last() >= 0);
        lemma_sat_sum_exact(s.drop_last());
    }
}

/// A sum of nonnegative amounts is nonnegative and bounds each prefix.
pub proof fn lemma_int_sum_nonneg(s: Seq<i32>)
    requires
        forall|i: int| 0 <= i < s.len() ==> s[i] >= 0,
    ensures
        int_sum(s) >= 0,
    decreases s.len(),
{
    if s.len() > 0 {
        lemma_int_sum_nonneg(s.drop_last());
    }
}

/// `a + b`, saturating at the `i32` bounds.
pub fn sat_add_i32(a: i32, b: i32) -> (r: i32)
    ensures
        r as int == clamp_i32(a as int + b as int),
{
    let v: i64 = a as i64 + b as i64;
    if v > i32::MAX as i64 {
        i32::MAX
    } else if v < i32::MIN as i64 {
        i32::MIN
    } else {
        v as i32
    }
}

/// `a - b`, saturating at the `i32` bounds.
pub fn sat_sub_i32(a: i32, b: i32) -> (r: i32)
    ensures
        r as int == clamp_i32(a as int - b as int),
{
    let v: i64 = a as i64 - b as i64;
    if v > i32::MAX as i64 {
        i32::MAX
    } else if v < i32::MIN as i64 {
        i32::MIN
    } else {
        v as i32
    }
}

} // verus!
