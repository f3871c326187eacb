//! The z-score normalizer.
//!
//! Each feature column is rewritten independently: its mean, variance and
//! standard deviation are computed, and every value is replaced by its
//! z-score at the caller's fixed-point resolution `scale`.  The label column
//! is never touched.  A column with zero (truncated) standard deviation
//! aborts the whole step with `DivideByZero`; nothing is returned partially
//! normalized.

use vstd::prelude::*;
use crate::errors::Error;
use crate::dataset::{dataset_wf, features_bounded, column};
use crate::stats::{
    self, val_ok, seq_bounded, mean_spec, var_spec, sqrt_floor, zscore_spec,
    abs_int, sum_seq, sum_sq_dev, lemma_mean_bounded, lemma_div_trunc_remainder,
    SCALE_BOUND, VALUE_BOUND,
};

verus! {

/// The truncated mean of column `j`.
pub open spec fn col_mean(recs: Seq<Vec<i64>>, j: int) -> int {
    mean_spec(column(recs, j))
}

/// The truncated population variance of column `j` about its mean.
pub open spec fn col_var(recs: Seq<Vec<i64>>, j: int) -> int {
    var_spec(column(recs, j), col_mean(recs, j))
}

/// The rounded-down standard deviation of column `j`.
pub open spec fn col_std(recs: Seq<Vec<i64>>, j: int) -> int {
    sqrt_floor(col_var(recs, j) as nat) as int
}

/// The z-scores of one column of values, at resolution `scale`;
/// `DivideByZero` exactly when the given standard deviation is zero.
pub fn normalize(numbers: &Vec<i64>, mean: i64, standard_deviation: u64, scale: u32) -> (result: Result<Vec<i64>, Error>)
    requires
        seq_bounded(numbers@),
        val_ok(mean),
        1 <= scale <= SCALE_BOUND,
    ensures
        match result {
            Ok(out) => {
                &&& standard_deviation != 0
                &&& out@.len() == numbers@.len()
                &&& forall|i: int| 0 <= i < numbers@.len() ==>
                    #[trigger] out@[i] == zscore_spec(numbers@[i] as int, mean as int, standard_deviation as int, scale as int)
            },
            Err(e) => standard_deviation == 0 && e == Error::DivideByZero,
        },
{
    if standard_deviation == 0 {
        return Err(Error::DivideByZero);
    }
    let n = numbers.len();
    let mut out: Vec<i64> = Vec::new();
    let mut i: usize = 0;
    while i < n
        invariant
            0 <= i <= n,
            n == numbers@.len(),
            seq_bounded(numbers@),
            val_ok(mean),
            1 <= scale <= SCALE_BOUND,
            standard_deviation != 0,
            out@.len() == i,
            forall|ii: int| 0 <= ii < i ==>
                #[trigger] out@[ii] == zscore_spec(numbers@[ii] as int, mean as int, standard_deviation as int, scale as int),
        decreases n - i,
    {
        let z = match stats::zscore(numbers[i], mean, standard_deviation, scale) {
            Ok(z) => z,
            Err(_) => unreached(),
        };
        out.push(z);
        i = i + 1;
    }
    Ok(out)
}

/// Z-score normalizes every feature column of a dataset at resolution
/// `scale`, leaving labels alone.  `EmptyInput` exactly when there are
/// feature columns but no records; `DivideByZero` exactly when some feature
/// column has a zero rounded-down standard deviation.
pub fn normalize_dataset(records: &Vec<Vec<i64>>, class_index: usize, scale: u32) -> (result: Result<Vec<Vec<i64>>, Error>)
    requires
        dataset_wf(records@, class_index as int),
        features_bounded(records@, class_index as int),
        1 <= scale <= SCALE_BOUND,
    ensures
        match result {
            Ok(out) => {
                &&& (class_index > 0 ==> records@.len() > 0)
                &&& (forall|j: int| 0 <= j < class_index ==> #[trigger] col_std(records@, j) != 0)
                &&& out@.len() == records@.len()
                &&& forall|r: int| 0 <= r < records@.len() ==> (#[trigger] out@[r])@.len() == records@[r]@.len()
                &&& forall|r: int| 0 <= r < records@.len() ==>
                    (#[trigger] out@[r])@[class_index as int] == records@[r]@[class_index as int]
                &&& forall|r: int, j: int| 0 <= r < records@.len() && 0 <= j < class_index ==>
                    #[trigger] out@[r]@[j] == zscore_spec(
                        records@[r]@[j] as int,
                        col_mean(records@, j),
                        col_std(records@, j),
                        scale as int,
                    )
            },
            Err(e) => {
                ||| (e == Error::EmptyInput && records@.len() == 0 && class_index > 0)
                ||| (e == Error::DivideByZero && records@.len() > 0
                    && exists|j: int| 0 <= j < class_index && #[trigger] col_std(records@, j) == 0)
            },
        },
{
    let n = records.len();
    let mut means: Vec<i64> = Vec::new();
    let mut stds: Vec<u64> = Vec::new();
    let mut j: usize = 0;
    while j < class_index
        invariant
            0 <= j <= class_index,
            n == records@.len(),
            dataset_wf(records@, class_index as int),
            features_bounded(records@, class_index as int),
            means@.len() == j,
            stds@.len() == j,
            j > 0 ==> n > 0,
            forall|jj: int| 0 <= jj < j ==> val_ok(#[trigger] means@[jj]),
            forall|jj: int| 0 <= jj < j ==> #[trigger] means@[jj] == col_mean(records@, jj),
            forall|jj: int| 0 <= jj < j ==> #[trigger] stds@[jj] == col_std(records@, jj),
            forall|jj: int| 0 <= jj < j ==> #[trigger] col_std(records@, jj) != 0,
        decreases class_index - j,
    {
        let mut col: Vec<i64> = Vec::new();
        let mut r: usize = 0;
        while r < n
            invariant
                0 <= r <= n,
                n == records@.len(),
                dataset_wf(records@, class_index as int),
                features_bounded(records@, class_index as int),
                0 <= j < class_index,
                col@.len() == r,
                forall|rr: int| 0 <= rr < r ==> #[trigger] col@[rr] == records@[rr]@[j as int],
            decreases n - r,
        {
            let row = &records[r];
            col.push(row[j]);
            r = r + 1;
        }
        proof {
            assert(col@ =~= column(records@, j as int));
        }
        let m = match stats::mean(&col) {
            Ok(m) => m,
            Err(e) => {
                return Err(e);
            },
        };
        proof {
            lemma_mean_bounded(col@, -(VALUE_BOUND as int), VALUE_BOUND as int);
        }
        let v = match stats::variance(&col, m) {
            Ok(v) => v,
            Err(_) => unreached(),
        };
        let sd = stats::standard_deviation(v);
        if sd == 0 {
            proof {
                assert(col_mean(records@, j as int) == m as int);
                assert(col_var(records@, j as int) == v as int);
                assert(col_std(records@, j as int) == 0);
            }
            return Err(Error::DivideByZero);
        }
        means.push(m);
        stds.push(sd);
        j = j + 1;
    }
    let mut out: Vec<Vec<i64>> = Vec::new();
    let mut r: usize = 0;
    while r < n
        invariant
            0 <= r <= n,
            n == records@.len(),
            dataset_wf(records@, class_index as int),
            features_bounded(records@, class_index as int),
            1 <= scale <= SCALE_BOUND,
            means@.len() == class_index,
            stds@.len() == class_index,
            forall|jj: int| 0 <= jj < class_index ==> val_ok(#[trigger] means@[jj]),
            forall|jj: int| 0 <= jj < class_index ==> #[trigger] means@[jj] == col_mean(records@, jj),
            forall|jj: int| 0 <= jj < class_index ==> #[trigger] stds@[jj] == col_std(records@, jj),
            forall|jj: int| 0 <= jj < class_index ==> #[trigger] col_std(records@, jj) != 0,
            out@.len() == r,
            forall|rr: int| 0 <= rr < r ==> (#[trigger] out@[rr])@.len() == records@[rr]@.len(),
            forall|rr: int| 0 <= rr < r ==>
                (#[trigger] out@[rr])@[class_index as int] == records@[rr]@[class_index as int],
            forall|rr: int, jj: int| 0 <= rr < r && 0 <= jj < class_index ==>
                #[trigger] out@[rr]@[jj] == zscore_spec(
                    records@[rr]@[jj] as int,
                    col_mean(records@, jj),
                    col_std(records@, jj),
                    scale as int,
                ),
        decreases n - r,
    {
        let row = &records[r];
        let mut new_row: Vec<i64> = Vec::new();
        let mut jj: usize = 0;
        while jj < class_index
            invariant
                0 <= jj <= class_index,
                n == records@.len(),
                0 <= r < n,
                dataset_wf(records@, class_index as int),
                features_bounded(records@, class_index as int),
                1 <= scale <= SCALE_BOUND,
                *row == records@[r as int],
                means@.len() == class_index,
                stds@.len() == class_index,
                forall|q: int| 0 <= q < class_index ==> val_ok(#[trigger] means@[q]),
                forall|q: int| 0 <= q < class_index ==> #[trigger] means@[q] == col_mean(records@, q),
                forall|q: int| 0 <= q < class_index ==> #[trigger] stds@[q] == col_std(records@, q),
                forall|q: int| 0 <= q < class_index ==> #[trigger] col_std(records@, q) != 0,
                new_row@.len() == jj,
                forall|q: int| 0 <= q < jj ==>
                    #[trigger] new_row@[q] == zscore_spec(
                        records@[r as int]@[q] as int,
                        col_mean(records@, q),
                        col_std(records@, q),
                        scale as int,
                    ),
            decreases class_index - jj,
        {
            let x = row[jj];
            let z = match stats::zscore(x, means[jj], stds[jj], scale) {
                Ok(z) => z,
                Err(_) => unreached(),
            };
            new_row.push(z);
            jj = jj + 1;
        }
        new_row.push(row[class_index]);
        out.push(new_row);
        r = r + 1;
    }
    Ok(out)
}

/// The sum of the z-scores of the first `n` values of a column.
spec fn zsum(s: Seq<i64>, m: int, sd: int, sc: int, n: int) -> int
    decreases n,
{
    if n <= 0 { 0 } else { zsum(s, m, sd, sc, n - 1) + zscore_spec(s[n - 1] as int, m, sd, sc) }
}

/// The sum of the deviations from `m` of the first `n` values of a column.
spec fn dev_sum(s: Seq<i64>, m: int, n: int) -> int
    decreases n,
{
    if n <= 0 { 0 } else { dev_sum(s, m, n - 1) + (s[n - 1] - m) }
}

proof fn lemma_dev_sum(s: Seq<i64>, m: int, n: int)
    requires
        0 <= n <= s.len(),
    ensures
        dev_sum(s, m, n) == sum_seq(s.take(n)) - n * m,
    decreases n,
{
    if n == 0 {
        assert(s.take(0).len() == 0);
    } else {
        lemma_dev_sum(s, m, n - 1);
        assert(s.take(n).drop_last() =~= s.take(n - 1));
        assert(s.take(n).last() == s[n - 1]);
        assert(sum_seq(s.take(n)) == sum_seq(s.take(n - 1)) + s[n - 1]);
        assert(n * m == (n - 1) * m + m) by (nonlinear_arith) {}
        assert(dev_sum(s, m, n) == dev_sum(s, m, n - 1) + (s[n - 1] - m));
    }
}

proof fn lemma_zsum_close(s: Seq<i64>, m: int, sd: int, sc: int, n: int)
    requires
        0 <= n <= s.len(),
        sd >= 1,
        sc >= 1,
    ensures
        abs_int(zsum(s, m, sd, sc, n) * sd - sc * dev_sum(s, m, n)) <= n * (sd - 1),
    decreases n,
{
    if n == 0 {
        assert(zsum(s, m, sd, sc, 0) * sd == 0) by (nonlinear_arith)
            requires zsum(s, m, sd, sc, 0) == 0,
        {}
    } else {
        lemma_zsum_close(s, m, sd, sc, n - 1);
        let x = s[n - 1] as int;
        let z = zscore_spec(x, m, sd, sc);
        lemma_div_trunc_remainder((x - m) * sc, sd);
        assert(abs_int((x - m) * sc - z * sd) <= sd - 1);
        assert(zsum(s, m, sd, sc, n) * sd == zsum(s, m, sd, sc, n - 1) * sd + z * sd) by (nonlinear_arith)
            requires zsum(s, m, sd, sc, n) == zsum(s, m, sd, sc, n - 1) + z,
        {}
        assert(sc * dev_sum(s, m, n) == sc * dev_sum(s, m, n - 1) + (x - m) * sc) by (nonlinear_arith)
            requires dev_sum(s, m, n) == dev_sum(s, m, n - 1) + (x - m),
        {}
        assert(n * (sd - 1) == (n - 1) * (sd - 1) + (sd - 1)) by (nonlinear_arith) {}
    }
}

proof fn lemma_sum_out(s: Seq<i64>, out: Seq<i64>, sd: int, sc: int, n: int)
    requires
        0 <= n <= s.len(),
        out.len() == s.len(),
        forall|i: int| 0 <= i < out.len() ==>
            #[trigger] out[i] == zscore_spec(s[i] as int, mean_spec(s), sd, sc),
    ensures
        sum_seq(out.take(n)) == zsum(s, mean_spec(s), sd, sc, n),
    decreases n,
{
    if n > 0 {
        lemma_sum_out(s, out, sd, sc, n - 1);
        assert(out.take(n).drop_last() =~= out.take(n - 1));
        assert(out.take(n).last() == out[n - 1]);
    }
}

/// The mean of a normalized column is close to zero: the magnitude of the
/// sum of the column's z-scores at resolution `sc`, taken `sd` times, stays
/// below `len * (sc + sd)` - that is, the column's average z-score is below
/// `sc / sd + 1` in magnitude, which is small against the resolution `sc`
/// whenever the deviation `sd` is large.  This is the exact-arithmetic part
/// of the classical "normalized data has mean zero": only truncation keeps
/// the sum away from zero, and this bounds what truncation can do.
pub proof fn lemma_normalized_column_mean(s: Seq<i64>, out: Seq<i64>, sd: int, sc: int)
    requires
        s.len() > 0,
        out.len() == s.len(),
        sd >= 1,
        sc >= 1,
        forall|i: int| 0 <= i < out.len() ==>
            #[trigger] out[i] == zscore_spec(s[i] as int, mean_spec(s), sd, sc),
    ensures
        abs_int(sum_seq(out)) * sd < s.len() * (sc + sd),
{
    let n = s.len() as int;
    let m = mean_spec(s);
    lemma_sum_out(s, out, sd, sc, n);
    assert(out.take(n) =~= out);
    lemma_zsum_close(s, m, sd, sc, n);
    lemma_dev_sum(s, m, n);
    assert(s.take(n) =~= s);
    let zs = zsum(s, m, sd, sc, n);
    let dev = dev_sum(s, m, n);
    lemma_div_trunc_remainder(sum_seq(s), n);
    assert(m * n == n * m) by (nonlinear_arith) {}
    assert(abs_int(dev) <= n - 1);
    assert(abs_int(sc * dev) <= sc * (n - 1)) by (nonlinear_arith)
        requires sc >= 1, abs_int(dev) <= n - 1, n >= 1,
    {}
    assert(abs_int(zs * sd) <= n * (sd - 1) + sc * (n - 1));
    assert(abs_int(zs) * sd == abs_int(zs * sd)) by (nonlinear_arith)
        requires sd >= 1,
    {}
    assert(n * (sd - 1) + sc * (n - 1) < n * (sc + sd)) by (nonlinear_arith)
        requires n >= 1, sc >= 1, sd >= 1,
    {}
}


/// The sum of the magnitudes of the deviations from `m` of the first `n`
/// values of a column.
pub open spec fn dev_abs_sum(s: Seq<i64>, m: int, n: int) -> int
    decreases n,
{
    if n <= 0 { 0 } else { dev_abs_sum(s, m, n - 1) + abs_int(s[n - 1] - m) }
}

proof fn lemma_sum_sq_dev_nonneg(s: Seq<i64>, m: int)
    ensures
        sum_sq_dev(s, m) >= 0,
    decreases s.len(),
{
    if s.len() > 0 {
        lemma_sum_sq_dev_nonneg(s.drop_last(), m);
        let t = s.last() - m;
        assert(t * t >= 0) by (nonlinear_arith) {}
    }
}

proof fn lemma_zsq_close(s: Seq<i64>, out: Seq<i64>, m: int, sd: int, sc: int, n: int)
    requires
        0 <= n <= s.len(),
        out.len() == s.len(),
        sd >= 1,
        sc >= 1,
        forall|i: int| 0 <= i < out.len() ==>
            #[trigger] out[i] == zscore_spec(s[i] as int, m, sd, sc),
    ensures
        abs_int((sd * sd) * sum_sq_dev(out.take(n), 0) - (sc * sc) * sum_sq_dev(s.take(n), m))
            <= n * (sd * sd) + 2 * sd * sc * dev_abs_sum(s, m, n),
    decreases n,
{
    if n == 0 {
        assert(out.take(0).len() == 0);
        assert(s.take(0).len() == 0);
        assert((sd * sd) * 0 == 0) by (nonlinear_arith) {}
        assert((sc * sc) * 0 == 0) by (nonlinear_arith) {}
    } else {
        lemma_zsq_close(s, out, m, sd, sc, n - 1);
        let z = out[n - 1] as int;
        let x = s[n - 1] as int;
        let d = x - m;
        let dabs = abs_int(d);
        lemma_div_trunc_remainder(d * sc, sd);
        let r = d * sc - z * sd;
        assert(-sd < r < sd);
        assert(out.take(n).drop_last() =~= out.take(n - 1));
        assert(out.take(n).last() == out[n - 1]);
        assert(s.take(n).drop_last() =~= s.take(n - 1));
        assert(s.take(n).last() == s[n - 1]);
        assert(sum_sq_dev(out.take(n), 0) == sum_sq_dev(out.take(n - 1), 0) + z * z);
        assert(sum_sq_dev(s.take(n), m) == sum_sq_dev(s.take(n - 1), m) + d * d);
        let a_old = sum_sq_dev(out.take(n - 1), 0);
        let b_old = sum_sq_dev(s.take(n - 1), m);
        assert((sd * sd) * (a_old + z * z) == (sd * sd) * a_old + (sd * sd) * (z * z)) by (nonlinear_arith) {}
        assert((sc * sc) * (b_old + d * d) == (sc * sc) * b_old + (sc * sc) * (d * d)) by (nonlinear_arith) {}
        assert((sd * z) * (sd * z) == (d * sc - r) * (d * sc - r)) by (nonlinear_arith)
            requires z * sd == d * sc - r,
        {}
        assert((d * sc - r) * (d * sc - r) == (sc * sc) * (d * d) - 2 * (d * sc) * r + r * r) by (nonlinear_arith) {}
        assert((sd * z) * (sd * z) == (sd * sd) * (z * z)) by (nonlinear_arith) {}
        assert((sd * sd) * (z * z) - (sc * sc) * (d * d) == r * r - 2 * (d * sc) * r);
        assert(0 <= r * r <= sd * sd) by (nonlinear_arith)
            requires -sd < r < sd,
        {}
        assert(-(2 * dabs * sc * sd) <= 2 * (d * sc) * r <= 2 * dabs * sc * sd) by (nonlinear_arith)
            requires
                -sd < r < sd,
                sc >= 1,
                sd >= 1,
                dabs >= d,
                dabs >= -d,
                dabs >= 0,
        {}
        assert(n * (sd * sd) == (n - 1) * (sd * sd) + sd * sd) by (nonlinear_arith) {}
        assert(2 * sd * sc * dev_abs_sum(s, m, n) == 2 * sd * sc * dev_abs_sum(s, m, n - 1) + 2 * sd * sc * dabs) by (nonlinear_arith)
            requires dev_abs_sum(s, m, n) == dev_abs_sum(s, m, n - 1) + dabs,
        {}
        assert(2 * sd * sc * dabs == 2 * dabs * sc * sd) by (nonlinear_arith) {}
    }
}

/// The second moment of a normalized column is close to `len * sc * sc`:
/// with `m` and `sd` the column's own truncated mean and rounded-down
/// standard deviation, the sum of the squared z-scores at resolution `sc`
/// differs from `len * sc * sc`, after multiplying through by `sd * sd`, by
/// at most the stated truncation terms.  Relative to `len * sc * sc` those
/// terms shrink as `sd` and `sc` grow against the column's average absolute
/// deviation.  This is the exact-arithmetic part of the classical
/// "normalized data has variance one"; it speaks of the moment about zero,
/// not about the column's own (provably small) mean.
pub proof fn lemma_normalized_column_second_moment(s: Seq<i64>, out: Seq<i64>, sc: int)
    requires
        s.len() > 0,
        out.len() == s.len(),
        sc >= 1,
        sqrt_floor(var_spec(s, mean_spec(s)) as nat) >= 1,
        forall|i: int| 0 <= i < out.len() ==>
            #[trigger] out[i] == zscore_spec(s[i] as int, mean_spec(s), sqrt_floor(var_spec(s, mean_spec(s)) as nat) as int, sc),
    ensures
        (sqrt_floor(var_spec(s, mean_spec(s)) as nat) as int)
            * (sqrt_floor(var_spec(s, mean_spec(s)) as nat) as int)
            * abs_int(sum_sq_dev(out, 0) - s.len() * (sc * sc))
            <= s.len() * (sqrt_floor(var_spec(s, mean_spec(s)) as nat) as int)
                * (sqrt_floor(var_spec(s, mean_spec(s)) as nat) as int)
            + 2 * (sqrt_floor(var_spec(s, mean_spec(s)) as nat) as int) * sc
                * dev_abs_sum(s, mean_spec(s), s.len() as int)
            + s.len() * (sc * sc)
            + 2 * s.len() * (sqrt_floor(var_spec(s, mean_spec(s)) as nat) as int) * (sc * sc),
{
    let n = s.len() as int;
    let m = mean_spec(s);
    let v = var_spec(s, m);
    let sd = sqrt_floor(v as nat) as int;
    let a = sum_sq_dev(out, 0);
    let sq = sum_sq_dev(s, m);
    let s1 = dev_abs_sum(s, m, n);

    lemma_zsq_close(s, out, m, sd, sc, n);
    assert(out.take(n) =~= out);
    assert(s.take(n) =~= s);
    assert(abs_int((sd * sd) * a - (sc * sc) * sq) <= n * (sd * sd) + 2 * sd * sc * s1);

    lemma_sum_sq_dev_nonneg(s, m);
    vstd::arithmetic::div_mod::lemma_fundamental_div_mod(sq, n);
    vstd::arithmetic::div_mod::lemma_mod_division_less_than_divisor(sq, n);
    let rho = sq % n;
    assert(sq == n * v + rho);
    assert(0 <= rho < n);
    assert((sc * sc) * sq == (sc * sc) * (n * v) + (sc * sc) * rho) by (nonlinear_arith)
        requires sq == n * v + rho,
    {}
    assert(0 <= (sc * sc) * rho <= (sc * sc) * n) by (nonlinear_arith)
        requires 0 <= rho <= n, sc >= 1,
    {}

    stats::lemma_sqrt_floor_bounds(v as nat);
    vstd::arithmetic::div_mod::lemma_div_pos_is_pos(sq, n);
    assert(v >= 0);
    assert(sd * sd <= v);
    assert(v < (sd + 1) * (sd + 1));
    assert(v - sd * sd <= 2 * sd) by (nonlinear_arith)
        requires v < (sd + 1) * (sd + 1),
    {}
    assert((sc * sc) * (n * v) - (sc * sc) * (n * (sd * sd)) == (sc * sc) * n * (v - sd * sd)) by (nonlinear_arith) {}
    assert(0 <= (sc * sc) * n * (v - sd * sd) <= 2 * n * sd * (sc * sc)) by (nonlinear_arith)
        requires 0 <= v - sd * sd <= 2 * sd, n >= 1, sc >= 1,
    {}

    assert((sd * sd) * a - (sc * sc) * (n * (sd * sd))
        == ((sd * sd) * a - (sc * sc) * sq) + (sc * sc) * rho + (sc * sc) * n * (v - sd * sd)) by (nonlinear_arith)
        requires
            sq == n * v + rho,
            (sc * sc) * sq == (sc * sc) * (n * v) + (sc * sc) * rho,
            (sc * sc) * (n * v) - (sc * sc) * (n * (sd * sd)) == (sc * sc) * n * (v - sd * sd),
    {}
    assert(abs_int((sd * sd) * a - (sc * sc) * (n * (sd * sd)))
        <= n * (sd * sd) + 2 * sd * sc * s1 + n * (sc * sc) + 2 * n * sd * (sc * sc));
    assert((sd * sd) * a - (sc * sc) * (n * (sd * sd)) == (sd * sd) * (a - n * (sc * sc))) by (nonlinear_arith) {}
    assert(sd * sd * abs_int(a - n * (sc * sc)) == abs_int((sd * sd) * (a - n * (sc * sc)))) by (nonlinear_arith)
        requires sd >= 1,
    {}
    assert(n * (sd * sd) == s.len() * sd * sd) by (nonlinear_arith)
        requires n == s.len(),
    {}
}


} // verus!
