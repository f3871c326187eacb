//! Statistics over fixed-point values: mean, population variance, standard
//! deviation, and z-score.
//!
//! Every value is an `i64` in fixed-point units chosen by the caller.  Each
//! operation is exact integer arithmetic whose rounding is pinned down by a
//! spec function: divisions truncate toward zero (`div_trunc`) and the square
//! root rounds down (`sqrt_floor`).

use vstd::prelude::*;
use crate::errors::Error;
use vstd::arithmetic::div_mod::{
    lemma_div_pos_is_pos,
    lemma_div_nonincreasing,
    lemma_fundamental_div_mod,
    lemma_multiply_divide_le,
    lemma_mod_division_less_than_divisor,
};
use vstd::arithmetic::mul::lemma_mul_is_distributive_sub_other_way;

verus! {

/// The largest magnitude a raw fixed-point value may have.  Squared
/// deviations of two such values must fit in a `u64`, which forces a bound
/// near the square root of `u64::MAX`.
pub const VALUE_BOUND: i64 = 0x7fff_ffff;

/// The largest fixed-point resolution a z-score may be requested at.  It
/// keeps every scaled deviation, and so every z-score, well inside `i64`.
pub const SCALE_BOUND: u32 = 0x10_0000;

/// A raw value the statistics accept: magnitude at most `VALUE_BOUND`.
pub open spec fn val_ok(x: i64) -> bool {
    -(VALUE_BOUND as int) <= x <= VALUE_BOUND as int
}

/// Every element of the sequence is within `VALUE_BOUND`.
pub open spec fn seq_bounded(s: Seq<i64>) -> bool {
    forall|i: int| 0 <= i < s.len() ==> val_ok(#[trigger] s[i])
}

/// The magnitude of an integer.
pub open spec fn abs_int(x: int) -> int {
    if x >= 0 { x } else { -x }
}

/// Integer division truncated toward zero, for a positive divisor.
pub open spec fn div_trunc(a: int, d: int) -> int
    recommends d > 0,
{
    if a >= 0 { a / d } else { -((-a) / d) }
}

/// The sum of a sequence of values.
pub open spec fn sum_seq(s: Seq<i64>) -> int
    decreases s.len(),
{
    if s.len() == 0 { 0 } else { sum_seq(s.drop_last()) + s.last() }
}

/// The sum of squared deviations of a sequence from `m`.
pub open spec fn sum_sq_dev(s: Seq<i64>, m: int) -> int
    decreases s.len(),
{
    if s.len() == 0 { 0 } else { sum_sq_dev(s.drop_last(), m) + (s.last() - m) * (s.last() - m) }
}

/// The truncated arithmetic mean of a non-empty sequence.
pub open spec fn mean_spec(s: Seq<i64>) -> int
    recommends s.len() > 0,
{
    div_trunc(sum_seq(s), s.len() as int)
}

/// The truncated population variance of a non-empty sequence about `m`.
pub open spec fn var_spec(s: Seq<i64>, m: int) -> int
    recommends s.len() > 0,
{
    sum_sq_dev(s, m) / (s.len() as int)
}

/// The square root of `n`, rounded down.
pub open spec fn sqrt_floor(n: nat) -> nat
    decreases n,
{
    if n == 0 {
        0
    } else {
        let r = sqrt_floor((n - 1) as nat);
        if (r + 1) * (r + 1) <= n { r + 1 } else { r }
    }
}

/// The z-score of `x` about mean `m` and standard deviation `sd`, expressed
/// at resolution `sc`: the truncation of `(x - m) * sc / sd`.
pub open spec fn zscore_spec(x: int, m: int, sd: int, sc: int) -> int
    recommends sd > 0,
{
    div_trunc((x - m) * sc, sd)
}

/// `sqrt_floor(n)` is the unique `r` with `r * r <= n < (r + 1) * (r + 1)`.
pub proof fn lemma_sqrt_floor_bounds(n: nat)
    ensures
        sqrt_floor(n) * sqrt_floor(n) <= n,
        n < (sqrt_floor(n) + 1) * (sqrt_floor(n) + 1),
    decreases n,
{
    if n == 0 {
        assert(sqrt_floor(0) == 0);
        assert((sqrt_floor(n) + 1) * (sqrt_floor(n) + 1) == 1) by (nonlinear_arith)
            requires sqrt_floor(n) == 0,
        {}
    } else {
        lemma_sqrt_floor_bounds((n - 1) as nat);
        let r = sqrt_floor((n - 1) as nat);
        assert(r * r <= n - 1);
        assert(n - 1 < (r + 1) * (r + 1));
        if (r + 1) * (r + 1) <= n {
            assert(sqrt_floor(n) == r + 1);
            assert(n == (r + 1) * (r + 1));
            assert(n < (r + 2) * (r + 2)) by (nonlinear_arith)
                requires n == (r + 1) * (r + 1), r >= 0,
            {}
            assert(n < (sqrt_floor(n) + 1) * (sqrt_floor(n) + 1)) by (nonlinear_arith)
                requires sqrt_floor(n) == r + 1, n < (r + 2) * (r + 2),
            {}
        } else {
            assert(sqrt_floor(n) == r);
            assert(n < (sqrt_floor(n) + 1) * (sqrt_floor(n) + 1)) by (nonlinear_arith)
                requires sqrt_floor(n) == r, n < (r + 1) * (r + 1),
            {}
        }
    }
}

/// No two naturals both satisfy the floor-square-root bounds for `n`.
pub proof fn lemma_sqrt_floor_unique(n: nat, r: nat)
    requires
        r * r <= n,
        n < (r + 1) * (r + 1),
    ensures
        r == sqrt_floor(n),
{
    let s = sqrt_floor(n);
    lemma_sqrt_floor_bounds(n);
    if r < s {
        assert((r + 1) * (r + 1) <= s * s) by (nonlinear_arith)
            requires r + 1 <= s,
        {}
    }
    if s < r {
        assert((s + 1) * (s + 1) <= r * r) by (nonlinear_arith)
            requires s + 1 <= r,
        {}
    }
}

/// Truncated division of `a` by a positive `d` leaves a remainder of
/// magnitude below `d`, on the same side of zero as `a`.
pub proof fn lemma_div_trunc_remainder(a: int, d: int)
    requires
        d >= 1,
    ensures
        a >= 0 ==> 0 <= a - div_trunc(a, d) * d < d,
        a < 0 ==> -d < a - div_trunc(a, d) * d <= 0,
{
    if a >= 0 {
        lemma_fundamental_div_mod(a, d);
        lemma_mod_division_less_than_divisor(a, d);
        assert(div_trunc(a, d) * d == d * (a / d)) by (nonlinear_arith)
            requires div_trunc(a, d) == a / d,
        {}
    } else {
        lemma_fundamental_div_mod(-a, d);
        lemma_mod_division_less_than_divisor(-a, d);
        let q = (-a) / d;
        assert(-a == d * q + ((-a) % d));
        assert(div_trunc(a, d) * d == -(d * q)) by (nonlinear_arith)
            requires div_trunc(a, d) == -q,
        {}
    }
}

/// Truncated division by a positive divisor stays between any multiple
/// bounds that bracket the dividend, when those bounds bracket zero.
pub proof fn lemma_div_trunc_bounds(a: int, d: int, lo: int, hi: int)
    requires
        d >= 1,
        lo <= 0 <= hi,
        d * lo <= a <= d * hi,
    ensures
        lo <= div_trunc(a, d) <= hi,
{
    if a >= 0 {
        lemma_div_pos_is_pos(a, d);
        lemma_multiply_divide_le(a, d, hi);
    } else {
        lemma_div_pos_is_pos(-a, d);
        assert(-a <= d * (-lo)) by (nonlinear_arith)
            requires d * lo <= a,
        {}
        lemma_multiply_divide_le(-a, d, -lo);
    }
}

/// Truncated division by a positive divisor never grows the magnitude.
pub proof fn lemma_div_trunc_abs_le(a: int, d: int)
    requires
        d >= 1,
    ensures
        abs_int(div_trunc(a, d)) <= abs_int(a),
{
    if a >= 0 {
        lemma_div_pos_is_pos(a, d);
        lemma_div_nonincreasing(a, d);
    } else {
        lemma_div_pos_is_pos(-a, d);
        lemma_div_nonincreasing(-a, d);
    }
}

/// A sum of values each bracketed by `lo` and `hi` is bracketed by the
/// corresponding multiples.
pub proof fn lemma_sum_seq_bounds(s: Seq<i64>, lo: int, hi: int)
    requires
        forall|i: int| 0 <= i < s.len() ==> lo <= #[trigger] s[i] <= hi,
    ensures
        (s.len() as int) * lo <= sum_seq(s) <= (s.len() as int) * hi,
    decreases s.len(),
{
    if s.len() == 0 {
    } else {
        lemma_sum_seq_bounds(s.drop_last(), lo, hi);
        assert((s.len() as int) * lo == (s.len() - 1) * lo + lo) by (nonlinear_arith) {}
        assert((s.len() as int) * hi == (s.len() - 1) * hi + hi) by (nonlinear_arith) {}
    }
}

/// A sum of squared deviations is never negative, and when each deviation's
/// square is at most `b`, the sum is at most `len * b`.
pub proof fn lemma_sum_sq_dev_bounds(s: Seq<i64>, m: int, b: int)
    requires
        forall|i: int| 0 <= i < s.len() ==> (#[trigger] s[i] - m) * (s[i] - m) <= b,
    ensures
        0 <= sum_sq_dev(s, m) <= (s.len() as int) * b,
    decreases s.len(),
{
    if s.len() == 0 {
    } else {
        lemma_sum_sq_dev_bounds(s.drop_last(), m, b);
        let t = s.last() - m;
        assert(t * t >= 0) by (nonlinear_arith) {}
        assert((s.len() as int) * b == (s.len() - 1) * b + b) by (nonlinear_arith) {}
    }
}

/// The truncated mean of a sequence stays between any bounds that bracket
/// both the elements and zero.
pub proof fn lemma_mean_bounded(s: Seq<i64>, lo: int, hi: int)
    requires
        s.len() > 0,
        lo <= 0 <= hi,
        forall|i: int| 0 <= i < s.len() ==> lo <= #[trigger] s[i] <= hi,
    ensures
        lo <= mean_spec(s) <= hi,
{
    lemma_sum_seq_bounds(s, lo, hi);
    lemma_div_trunc_bounds(sum_seq(s), s.len() as int, lo, hi);
}

/// Truncated division of a signed 128-bit dividend by a positive divisor.
fn div_trunc_i128(a: i128, d: u128) -> (result: i128)
    requires
        d >= 1,
        a > i128::MIN,
    ensures
        result == div_trunc(a as int, d as int),
{
    if a >= 0 {
        let q: u128 = (a as u128) / d;
        proof {
            lemma_div_pos_is_pos(a as int, d as int);
            lemma_div_nonincreasing(a as int, d as int);
        }
        q as i128
    } else {
        let q: u128 = ((-a) as u128) / d;
        proof {
            lemma_div_pos_is_pos(-(a as int), d as int);
            lemma_div_nonincreasing(-(a as int), d as int);
        }
        -(q as i128)
    }
}

/// The floor of the square root of a 128-bit value, by bisection.
pub(crate) fn isqrt_u128(v: u128) -> (result: u64)
    ensures
        result as nat == sqrt_floor(v as nat),
{
    let mut lo: u64 = 0;
    let mut hi: u64 = 0xffff_ffff_ffff_ffff;
    proof {
        assert((hi as int + 1) * (hi as int + 1) > v as int) by (nonlinear_arith)
            requires v < 0x1_0000_0000_0000_0000_0000_0000_0000_0000int, hi == 0xffff_ffff_ffff_ffffu64,
        {}
    }
    while lo < hi
        invariant
            lo <= hi,
            (lo as int) * (lo as int) <= v as int,
            (hi as int + 1) * (hi as int + 1) > v as int,
        decreases hi - lo,
    {
        let mid: u64 = lo + (hi - lo) / 2 + 1;
        proof {
            assert((mid as int) * (mid as int) < 0x1_0000_0000_0000_0000_0000_0000_0000_0000int) by (nonlinear_arith)
                requires 0 <= mid <= 0xffff_ffff_ffff_ffffu64,
            {}
        }
        if (mid as u128) * (mid as u128) <= v {
            lo = mid;
        } else {
            hi = mid - 1;
        }
    }
    proof {
        lemma_sqrt_floor_unique(v as nat, lo as nat);
    }
    lo
}

/// The truncated mean of a non-empty set of values; `EmptyInput` exactly
/// when there are none.
pub fn mean(numbers: &Vec<i64>) -> (result: Result<i64, Error>)
    ensures
        match result {
            Ok(m) => numbers@.len() > 0 && m == mean_spec(numbers@),
            Err(e) => numbers@.len() == 0 && e == Error::EmptyInput,
        },
{
    let n = numbers.len();
    if n == 0 {
        return Err(Error::EmptyInput);
    }
    let mut sum: i128 = 0;
    let mut i: usize = 0;
    while i < n
        invariant
            0 <= i <= n,
            n == numbers@.len(),
            sum == sum_seq(numbers@.take(i as int)),
            (i as int) * (i64::MIN as int) <= sum <= (i as int) * (i64::MAX as int),
        decreases n - i,
    {
        let x = numbers[i];
        proof {
            assert(numbers@.take(i as int + 1).drop_last() =~= numbers@.take(i as int));
            assert((i as int + 1) * (i64::MIN as int) == (i as int) * (i64::MIN as int) + i64::MIN) by (nonlinear_arith) {}
            assert((i as int + 1) * (i64::MAX as int) == (i as int) * (i64::MAX as int) + i64::MAX) by (nonlinear_arith) {}
        }
        sum = sum + (x as i128);
        i = i + 1;
    }
    proof {
        assert(numbers@.take(n as int) =~= numbers@);
        lemma_sum_seq_bounds(numbers@, i64::MIN as int, i64::MAX as int);
        lemma_div_trunc_bounds(sum as int, n as int, i64::MIN as int, i64::MAX as int);
    }
    let m = div_trunc_i128(sum, n as u128);
    Ok(m as i64)
}

/// The truncated population variance of a non-empty set of values about a
/// caller-supplied mean; `EmptyInput` exactly when there are none.
pub fn variance(numbers: &Vec<i64>, mean: i64) -> (result: Result<u64, Error>)
    requires
        seq_bounded(numbers@),
        val_ok(mean),
    ensures
        match result {
            Ok(v) => numbers@.len() > 0 && v == var_spec(numbers@, mean as int),
            Err(e) => numbers@.len() == 0 && e == Error::EmptyInput,
        },
{
    let n = numbers.len();
    if n == 0 {
        return Err(Error::EmptyInput);
    }
    let mut sum: u128 = 0;
    let mut i: usize = 0;
    while i < n
        invariant
            0 <= i <= n,
            n == numbers@.len(),
            seq_bounded(numbers@),
            val_ok(mean),
            sum == sum_sq_dev(numbers@.take(i as int), mean as int),
            sum <= (i as int) * 0xffff_fffc_0000_0004,
        decreases n - i,
    {
        let x = numbers[i];
        let d: u64 = if x >= mean { (x - mean) as u64 } else { (mean - x) as u64 };
        proof {
            assert((d as int) * (d as int) <= 0xffff_fffc_0000_0004) by (nonlinear_arith)
                requires 0 <= d <= 0xffff_fffe,
            {}
        }
        let sq: u128 = (d as u128) * (d as u128);
        proof {
            assert(numbers@.take(i as int + 1).drop_last() =~= numbers@.take(i as int));
            assert((d as int) * (d as int) == (x - mean) * (x - mean)) by (nonlinear_arith)
                requires d == x - mean || d == mean - x,
            {}
            assert((i as int + 1) * 0xffff_fffc_0000_0004 == (i as int) * 0xffff_fffc_0000_0004 + 0xffff_fffc_0000_0004) by (nonlinear_arith) {}
            assert((i as int) * 0xffff_fffc_0000_0004 <= 0xffff_ffff_ffff_ffffint * 0xffff_fffc_0000_0004) by (nonlinear_arith)
                requires 0 <= i <= 0xffff_ffff_ffff_ffffint,
            {}
        }
        sum = sum + sq;
        i = i + 1;
    }
    proof {
        assert(numbers@.take(n as int) =~= numbers@);
        assert(forall|j: int| 0 <= j < numbers@.len() ==>
            (#[trigger] numbers@[j] - mean) * (numbers@[j] - mean) <= 0xffff_fffc_0000_0004) by {
            assert forall|j: int| 0 <= j < numbers@.len() implies
                (#[trigger] numbers@[j] - mean) * (numbers@[j] - mean) <= 0xffff_fffc_0000_0004 by {
                let t = numbers@[j] - mean;
                assert(t * t <= 0xffff_fffc_0000_0004) by (nonlinear_arith)
                    requires -0xffff_fffe <= t <= 0xffff_fffe,
                {}
            }
        }
        lemma_sum_sq_dev_bounds(numbers@, mean as int, 0xffff_fffc_0000_0004);
        lemma_div_pos_is_pos(sum as int, n as int);
        lemma_multiply_divide_le(sum as int, n as int, 0xffff_fffc_0000_0004);
    }
    let v = sum / (n as u128);
    Ok(v as u64)
}

/// The standard deviation of a truncated variance: its square root, rounded
/// down.  Never fails.
pub fn standard_deviation(variance: u64) -> (result: u64)
    ensures
        result as nat == sqrt_floor(variance as nat),
{
    isqrt_u128(variance as u128)
}

/// The z-score of `x` about `mean` and `standard_deviation`, expressed at
/// resolution `scale`; `DivideByZero` exactly when the deviation is zero.
pub fn zscore(number: i64, mean: i64, standard_deviation: u64, scale: u32) -> (result: Result<i64, Error>)
    requires
        val_ok(number),
        val_ok(mean),
        1 <= scale <= SCALE_BOUND,
    ensures
        match result {
            Ok(z) => standard_deviation != 0
                && z == zscore_spec(number as int, mean as int, standard_deviation as int, scale as int),
            Err(e) => standard_deviation == 0 && e == Error::DivideByZero,
        },
{
    if standard_deviation == 0 {
        return Err(Error::DivideByZero);
    }
    let diff: i128 = (number as i128) - (mean as i128);
    proof {
        assert(-0x1000_0000_0000_0000 <= diff * (scale as int) <= 0x1000_0000_0000_0000) by (nonlinear_arith)
            requires -0xffff_fffe <= diff <= 0xffff_fffe, 1 <= scale <= 0x10_0000,
        {}
    }
    let num: i128 = diff * (scale as i128);
    let z = div_trunc_i128(num, standard_deviation as u128);
    proof {
        lemma_div_trunc_abs_le(num as int, standard_deviation as int);
    }
    Ok(z as i64)
}

/// For a non-empty sequence of one repeated value, the mean is that value
/// and the variance, and so the standard deviation, is zero.
pub proof fn lemma_stats_of_constant(s: Seq<i64>, v: i64)
    requires
        s.len() > 0,
        forall|i: int| 0 <= i < s.len() ==> #[trigger] s[i] == v,
    ensures
        mean_spec(s) == v,
        var_spec(s, v as int) == 0,
        sqrt_floor(var_spec(s, v as int) as nat) == 0,
{
    lemma_sum_seq_bounds(s, v as int, v as int);
    let n = s.len() as int;
    assert(sum_seq(s) == n * (v as int));
    if v >= 0 {
        vstd::arithmetic::div_mod::lemma_div_multiples_vanish(v as int, n);
    } else {
        vstd::arithmetic::div_mod::lemma_div_multiples_vanish(-(v as int), n);
        assert(-(n * (v as int)) == n * (-(v as int))) by (nonlinear_arith) {}
    }
    assert forall|i: int| 0 <= i < s.len() implies
        (#[trigger] s[i] - (v as int)) * (s[i] - (v as int)) <= 0 by {
        assert(s[i] == v);
    }
    lemma_sum_sq_dev_bounds(s, v as int, 0);
    assert(sum_sq_dev(s, v as int) == 0);
    assert(var_spec(s, v as int) == 0) by {
        vstd::arithmetic::div_mod::lemma_div_of0(n);
    }
}

/// Scaling the z-score back by the standard deviation recovers the scaled
/// input to within one standard deviation: the round trip loses only the
/// division's remainder.
pub proof fn lemma_zscore_round_trip(x: int, m: int, sd: int, sc: int)
    requires
        sd >= 1,
        sc >= 1,
    ensures
        abs_int(x * sc - (m * sc + zscore_spec(x, m, sd, sc) * sd)) < sd,
{
    let a = (x - m) * sc;
    let z = zscore_spec(x, m, sd, sc);
    lemma_div_trunc_remainder(a, sd);
    lemma_mul_is_distributive_sub_other_way(sc, x, m);
    assert(x * sc - (m * sc + z * sd) == a - z * sd);
}

} // verus!
