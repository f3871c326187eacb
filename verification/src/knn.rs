//! The brute-force k-nearest-neighbors classifier.
//!
//! For each test record, the distance to every training record is computed
//! with the configured metric, the k closest training records are selected —
//! ties broken deterministically by original training order — and the
//! prediction is the sign of the sum of their labels, with the zero tie
//! resolved toward the positive class.
//!
//! Neighbor selection is specified by rank: a training record is a neighbor
//! exactly when fewer than k others strictly precede it in the order
//! "smaller distance first, earlier index first among equals".  This matches
//! sorting stably by distance and taking the first k, without requiring a
//! sort at all.

use vstd::prelude::*;
use crate::errors::Error;
use crate::dataset::{dataset_wf, features_bounded, features_ok, label_ok, labels};
use crate::stats::{sqrt_floor, sum_seq, isqrt_u128};

verus! {

/// The two supported distance functions over feature vectors.
#[derive(Clone, Copy, Debug, PartialEq, Eq, Structural)]
pub enum Distance {
    /// Sum of absolute coordinate differences.
    L1,
    /// Rounded-down square root of the sum of squared coordinate differences.
    L2,
}

/// The magnitude of the difference of two values.
pub open spec fn abs_diff(x: i64, y: i64) -> int {
    if x >= y { x - y } else { y - x }
}

/// The sum of absolute coordinate differences over the first `n` coordinates.
pub open spec fn l1_upto(a: Seq<i64>, b: Seq<i64>, n: int) -> int
    decreases n,
{
    if n <= 0 { 0 } else { l1_upto(a, b, n - 1) + abs_diff(a[n - 1], b[n - 1]) }
}

/// The sum of squared coordinate differences over the first `n` coordinates.
pub open spec fn sq_upto(a: Seq<i64>, b: Seq<i64>, n: int) -> int
    decreases n,
{
    if n <= 0 { 0 } else { sq_upto(a, b, n - 1) + (a[n - 1] - b[n - 1]) * (a[n - 1] - b[n - 1]) }
}

/// The chosen distance over the first `nf` coordinates of two records.
pub open spec fn dist_spec(d: Distance, a: Seq<i64>, b: Seq<i64>, nf: int) -> int {
    match d {
        Distance::L1 => l1_upto(a, b, nf),
        Distance::L2 => sqrt_floor(sq_upto(a, b, nf) as nat) as int,
    }
}

/// The distances from a query record to every training record, by index.
pub open spec fn dists_of(train: Seq<Vec<i64>>, q: Seq<i64>, d: Distance, nf: int) -> Seq<int> {
    Seq::new(train.len(), |i: int| dist_spec(d, train[i]@, q, nf))
}

/// Whether training index `i` strictly precedes index `j` in neighbor
/// order: smaller distance first, earlier index first among equal distances.
pub open spec fn prec(ds: Seq<int>, i: int, j: int) -> bool {
    ds[i] < ds[j] || (ds[i] == ds[j] && i < j)
}

/// How many of the first `n` indices strictly precede index `i`.
pub open spec fn rank_upto(ds: Seq<int>, i: int, n: int) -> int
    decreases n,
{
    if n <= 0 {
        0
    } else {
        rank_upto(ds, i, n - 1) + if prec(ds, n - 1, i) { 1int } else { 0int }
    }
}

/// How many indices strictly precede index `i`: index `i` is one of the k
/// nearest neighbors exactly when its rank is below k.
pub open spec fn rank(ds: Seq<int>, i: int) -> int {
    rank_upto(ds, i, ds.len() as int)
}

/// The sum of the labels of the neighbors among the first `n` training
/// records.
pub open spec fn vote_upto(ds: Seq<int>, lab: Seq<i64>, k: int, n: int) -> int
    decreases n,
{
    if n <= 0 {
        0
    } else {
        vote_upto(ds, lab, k, n - 1) + if rank(ds, n - 1) < k { lab[n - 1] as int } else { 0int }
    }
}

/// The sum of the labels of the k nearest training records to `q`.
pub open spec fn vote_spec(train: Seq<Vec<i64>>, q: Seq<i64>, k: int, d: Distance, ci: int) -> int {
    vote_upto(dists_of(train, q, d, ci), labels(train, ci), k, train.len() as int)
}

/// The predicted label for `q`: negative vote means `-1`, otherwise `+1`
/// (a zero tie resolves toward the positive class).
pub open spec fn predict_spec(train: Seq<Vec<i64>>, q: Seq<i64>, k: int, d: Distance, ci: int) -> i64 {
    if vote_spec(train, q, k, d, ci) < 0 { -1i64 } else { 1i64 }
}

/// The L1 (Manhattan) distance over the first `num_features` coordinates.
pub fn l1_distance(a: &Vec<i64>, b: &Vec<i64>, num_features: usize) -> (result: u128)
    requires
        num_features <= a@.len(),
        num_features <= b@.len(),
    ensures
        result == l1_upto(a@, b@, num_features as int),
{
    let mut sum: u128 = 0;
    let mut i: usize = 0;
    while i < num_features
        invariant
            0 <= i <= num_features,
            num_features <= a@.len(),
            num_features <= b@.len(),
            sum == l1_upto(a@, b@, i as int),
            sum <= (i as int) * 0xffff_ffff_ffff_ffff,
        decreases num_features - i,
    {
        let x: i128 = a[i] as i128;
        let y: i128 = b[i] as i128;
        let d: u128 = if x >= y { (x - y) as u128 } else { (y - x) as u128 };
        sum = sum + d;
        i = i + 1;
    }
    sum
}

/// The L2 (Euclidean) distance over the first `num_features` coordinates:
/// the rounded-down square root of the sum of squared differences.
pub fn l2_distance(a: &Vec<i64>, b: &Vec<i64>, num_features: usize) -> (result: u64)
    requires
        num_features <= a@.len(),
        num_features <= b@.len(),
        features_ok(a@, num_features as int),
        features_ok(b@, num_features as int),
    ensures
        result == sqrt_floor(sq_upto(a@, b@, num_features as int) as nat),
{
    let mut sum: u128 = 0;
    let mut i: usize = 0;
    while i < num_features
        invariant
            0 <= i <= num_features,
            num_features <= a@.len(),
            num_features <= b@.len(),
            features_ok(a@, num_features as int),
            features_ok(b@, num_features as int),
            sum == sq_upto(a@, b@, i as int),
            sum <= (i as int) * 0xffff_fffc_0000_0004,
        decreases num_features - i,
    {
        let x = a[i];
        let y = b[i];
        let d: u64 = if x >= y { (x - y) as u64 } else { (y - x) as u64 };
        proof {
            assert((d as int) * (d as int) <= 0xffff_fffc_0000_0004) by (nonlinear_arith)
                requires 0 <= d <= 0xffff_fffe,
            {}
            assert((d as int) * (d as int) == (x - y) * (x - y)) by (nonlinear_arith)
                requires d == x - y || d == y - x,
            {}
            assert((i as int) * 0xffff_fffc_0000_0004 <= 0xffff_ffff_ffff_ffffint * 0xffff_fffc_0000_0004) by (nonlinear_arith)
                requires 0 <= i <= 0xffff_ffff_ffff_ffffint,
            {}
            assert((i as int + 1) * 0xffff_fffc_0000_0004 == (i as int) * 0xffff_fffc_0000_0004 + 0xffff_fffc_0000_0004) by (nonlinear_arith) {}
        }
        let sq: u128 = (d as u128) * (d as u128);
        sum = sum + sq;
        i = i + 1;
    }
    isqrt_u128(sum)
}

/// The chosen distance between the feature parts of two records.
pub fn record_distance(dist: Distance, a: &Vec<i64>, b: &Vec<i64>, num_features: usize) -> (result: u128)
    requires
        num_features <= a@.len(),
        num_features <= b@.len(),
        dist == Distance::L2 ==> features_ok(a@, num_features as int)
            && features_ok(b@, num_features as int),
    ensures
        result == dist_spec(dist, a@, b@, num_features as int),
{
    match dist {
        Distance::L1 => l1_distance(a, b, num_features),
        Distance::L2 => l2_distance(a, b, num_features) as u128,
    }
}

/// Classifies one record against a non-empty training set: the sign of the
/// majority vote of the k nearest training records.
pub fn classify(training_set: &Vec<Vec<i64>>, record: &Vec<i64>, k: usize, dist: Distance, class_index: usize) -> (result: i64)
    requires
        training_set@.len() > 0,
        k >= 1,
        dataset_wf(training_set@, class_index as int),
        record@.len() > class_index,
        dist == Distance::L2 ==> features_bounded(training_set@, class_index as int)
            && features_ok(record@, class_index as int),
    ensures
        result == predict_spec(training_set@, record@, k as int, dist, class_index as int),
        label_ok(result),
{
    let ghost dsspec = dists_of(training_set@, record@, dist, class_index as int);
    let n = training_set.len();
    let mut ds: Vec<u128> = Vec::new();
    let mut i: usize = 0;
    while i < n
        invariant
            0 <= i <= n,
            n == training_set@.len(),
            dataset_wf(training_set@, class_index as int),
            record@.len() > class_index,
            dist == Distance::L2 ==> features_bounded(training_set@, class_index as int)
                && features_ok(record@, class_index as int),
            dsspec == dists_of(training_set@, record@, dist, class_index as int),
            ds@.len() == i,
            forall|ii: int| 0 <= ii < i ==> #[trigger] ds@[ii] == dsspec[ii],
        decreases n - i,
    {
        let row = &training_set[i];
        let dv = record_distance(dist, row, record, class_index);
        ds.push(dv);
        i = i + 1;
    }
    let mut vote: i128 = 0;
    let mut i: usize = 0;
    while i < n
        invariant
            0 <= i <= n,
            n == training_set@.len(),
            n == dsspec.len(),
            k >= 1,
            dataset_wf(training_set@, class_index as int),
            ds@.len() == n,
            forall|ii: int| 0 <= ii < n ==> #[trigger] ds@[ii] == dsspec[ii],
            vote == vote_upto(dsspec, labels(training_set@, class_index as int), k as int, i as int),
            -(i as int) <= vote <= i as int,
        decreases n - i,
    {
        let di = ds[i];
        let mut cnt: usize = 0;
        let mut j: usize = 0;
        while j < n
            invariant
                0 <= j <= n,
                0 <= i < n,
                n == dsspec.len(),
                ds@.len() == n,
                forall|ii: int| 0 <= ii < n ==> #[trigger] ds@[ii] == dsspec[ii],
                di == dsspec[i as int],
                cnt == rank_upto(dsspec, i as int, j as int),
                cnt <= j,
            decreases n - j,
        {
            let dj = ds[j];
            if dj < di || (dj == di && j < i) {
                cnt = cnt + 1;
            }
            j = j + 1;
        }
        if cnt < k {
            let row = &training_set[i];
            let lab = row[class_index];
            vote = vote + (lab as i128);
        }
        i = i + 1;
    }
    if vote < 0 { -1 } else { 1 }
}

/// Classifies every test record against the training set; `InvalidK`
/// exactly when `k` is zero, `EmptyTrainingSet` exactly when there are no
/// training records.
pub fn knn(k: usize, training_set: &Vec<Vec<i64>>, test_set: &Vec<Vec<i64>>, dist: Distance, class_index: usize) -> (result: Result<Vec<i64>, Error>)
    requires
        dataset_wf(training_set@, class_index as int),
        dataset_wf(test_set@, class_index as int),
        dist == Distance::L2 ==> features_bounded(training_set@, class_index as int)
            && features_bounded(test_set@, class_index as int),
    ensures
        match result {
            Ok(preds) => {
                &&& k >= 1
                &&& training_set@.len() > 0
                &&& preds@.len() == test_set@.len()
                &&& forall|i: int| 0 <= i < test_set@.len() ==>
                    #[trigger] preds@[i] == predict_spec(
                        training_set@,
                        test_set@[i]@,
                        k as int,
                        dist,
                        class_index as int,
                    )
            },
            Err(e) => {
                ||| (e == Error::InvalidK && k == 0)
                ||| (e == Error::EmptyTrainingSet && k >= 1 && training_set@.len() == 0)
            },
        },
{
    if k == 0 {
        return Err(Error::InvalidK);
    }
    if training_set.len() == 0 {
        return Err(Error::EmptyTrainingSet);
    }
    let n = test_set.len();
    let mut preds: Vec<i64> = Vec::new();
    let mut i: usize = 0;
    while i < n
        invariant
            0 <= i <= n,
            n == test_set@.len(),
            k >= 1,
            training_set@.len() > 0,
            dataset_wf(training_set@, class_index as int),
            dataset_wf(test_set@, class_index as int),
            dist == Distance::L2 ==> features_bounded(training_set@, class_index as int)
                && features_bounded(test_set@, class_index as int),
            preds@.len() == i,
            forall|ii: int| 0 <= ii < i ==>
                #[trigger] preds@[ii] == predict_spec(
                    training_set@,
                    test_set@[ii]@,
                    k as int,
                    dist,
                    class_index as int,
                ),
        decreases n - i,
    {
        let record = &test_set[i];
        let p = classify(training_set, record, k, dist, class_index);
        preds.push(p);
        i = i + 1;
    }
    Ok(preds)
}

/// No index is preceded by itself, so among the first `n` indices at most
/// `n - 1` precede index `i` when `i` is one of them.
proof fn lemma_rank_upto_le(ds: Seq<int>, i: int, n: int)
    requires
        0 <= n,
    ensures
        0 <= rank_upto(ds, i, n) <= n,
        0 <= i < n ==> rank_upto(ds, i, n) < n,
    decreases n,
{
    if n > 0 {
        lemma_rank_upto_le(ds, i, n - 1);
        assert(!prec(ds, i, i));
    }
}

/// When every training record is a neighbor, the vote is the plain sum of
/// the labels.
proof fn lemma_vote_all(ds: Seq<int>, lab: Seq<i64>, k: int, n: int)
    requires
        0 <= n <= ds.len(),
        n <= lab.len(),
        k >= ds.len(),
    ensures
        vote_upto(ds, lab, k, n) == sum_seq(lab.take(n)),
    decreases n,
{
    if n > 0 {
        lemma_vote_all(ds, lab, k, n - 1);
        lemma_rank_upto_le(ds, n - 1, ds.len() as int);
        assert(lab.take(n).drop_last() =~= lab.take(n - 1));
        assert(lab.take(n).last() == lab[n - 1]);
    }
}

/// Classification is deterministic: two predictions made from the same
/// training set, query record, neighbor count and distance function are
/// equal.
pub proof fn lemma_classifier_deterministic(train: Seq<Vec<i64>>, q: Seq<i64>, k: int, d: Distance, ci: int, first: i64, second: i64)
    requires
        first == predict_spec(train, q, k, d, ci),
        second == predict_spec(train, q, k, d, ci),
    ensures
        first == second,
{
}

/// With `k` at least the training-set size, every training record takes
/// part in the vote: the prediction is the global majority-vote sign of all
/// training labels, ties resolving toward `+1`.
pub proof fn lemma_knn_all_training(train: Seq<Vec<i64>>, q: Seq<i64>, k: int, d: Distance, ci: int)
    requires
        k >= train.len(),
    ensures
        predict_spec(train, q, k, d, ci) == if sum_seq(labels(train, ci)) < 0 { -1i64 } else { 1i64 },
{
    let ds = dists_of(train, q, d, ci);
    let lab = labels(train, ci);
    lemma_vote_all(ds, lab, k, train.len() as int);
    assert(lab.take(train.len() as int) =~= lab);
}

} // verus!
