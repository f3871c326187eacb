//! The evaluator: confusion matrix and accuracy.
//!
//! Actual and predicted labels are compared pairwise; each pair with both
//! labels in `{+1, -1}` increments exactly one of the four counters, and any
//! pair with a label outside that set is skipped silently.  Accuracy is the
//! exact ratio of correct pairs to counted pairs.

use vstd::prelude::*;
use crate::errors::Error;
use crate::dataset::label_ok;

verus! {

/// The four counters of a binary confusion matrix.
#[derive(Clone, Copy, Debug, PartialEq, Eq, Structural)]
pub struct ConfusionMatrix {
    /// Pairs with actual `+1` and predicted `+1`.
    pub true_pos: usize,
    /// Pairs with actual `+1` and predicted `-1`.
    pub false_neg: usize,
    /// Pairs with actual `-1` and predicted `+1`.
    pub false_pos: usize,
    /// Pairs with actual `-1` and predicted `-1`.
    pub true_neg: usize,
}

/// How many of the first `n` pairs have actual label `av` and predicted
/// label `pv`.
pub open spec fn count_pair(a: Seq<i64>, p: Seq<i64>, av: i64, pv: i64, n: int) -> int
    decreases n,
{
    if n <= 0 {
        0
    } else {
        count_pair(a, p, av, pv, n - 1) + if a[n - 1] == av && p[n - 1] == pv { 1int } else { 0int }
    }
}

/// How many of the first `n` pairs have both labels in `{+1, -1}`.
pub open spec fn count_valid(a: Seq<i64>, p: Seq<i64>, n: int) -> int
    decreases n,
{
    if n <= 0 {
        0
    } else {
        count_valid(a, p, n - 1) + if label_ok(a[n - 1]) && label_ok(p[n - 1]) { 1int } else { 0int }
    }
}

/// Tabulates actual against predicted labels.  Each counter is exactly the
/// number of pairs with the corresponding label combination; pairs with a
/// label outside `{+1, -1}` are counted nowhere.
pub fn confusion_matrix(actuals: &Vec<i64>, predicted: &Vec<i64>) -> (cm: ConfusionMatrix)
    requires
        actuals@.len() == predicted@.len(),
    ensures
        cm.true_pos == count_pair(actuals@, predicted@, 1i64, 1i64, actuals@.len() as int),
        cm.false_neg == count_pair(actuals@, predicted@, 1i64, -1i64, actuals@.len() as int),
        cm.false_pos == count_pair(actuals@, predicted@, -1i64, 1i64, actuals@.len() as int),
        cm.true_neg == count_pair(actuals@, predicted@, -1i64, -1i64, actuals@.len() as int),
{
    let n = actuals.len();
    let mut tp: usize = 0;
    let mut fneg: usize = 0;
    let mut fpos: usize = 0;
    let mut tn: usize = 0;
    let mut i: usize = 0;
    while i < n
        invariant
            0 <= i <= n,
            n == actuals@.len(),
            n == predicted@.len(),
            tp == count_pair(actuals@, predicted@, 1i64, 1i64, i as int),
            fneg == count_pair(actuals@, predicted@, 1i64, -1i64, i as int),
            fpos == count_pair(actuals@, predicted@, -1i64, 1i64, i as int),
            tn == count_pair(actuals@, predicted@, -1i64, -1i64, i as int),
            tp <= i && fneg <= i && fpos <= i && tn <= i,
        decreases n - i,
    {
        let a = actuals[i];
        let p = predicted[i];
        if a == 1 && p == 1 {
            tp = tp + 1;
        } else if a == 1 && p == -1 {
            fneg = fneg + 1;
        } else if a == -1 && p == 1 {
            fpos = fpos + 1;
        } else if a == -1 && p == -1 {
            tn = tn + 1;
        }
        i = i + 1;
    }
    ConfusionMatrix { true_pos: tp, false_neg: fneg, false_pos: fpos, true_neg: tn }
}

/// The exact accuracy of a confusion matrix, as the ratio of correct pairs
/// to all counted pairs; `EmptyEvaluationSet` exactly when no pair was
/// counted.
pub fn accuracy(cm: &ConfusionMatrix) -> (result: Result<(usize, usize), Error>)
    requires
        cm.true_pos + cm.false_neg + cm.false_pos + cm.true_neg <= usize::MAX,
    ensures
        match result {
            Ok(ratio) => {
                &&& cm.true_pos + cm.false_neg + cm.false_pos + cm.true_neg > 0
                &&& ratio.0 == cm.true_pos + cm.true_neg
                &&& ratio.1 == cm.true_pos + cm.false_neg + cm.false_pos + cm.true_neg
            },
            Err(e) => {
                &&& e == Error::EmptyEvaluationSet
                &&& cm.true_pos + cm.false_neg + cm.false_pos + cm.true_neg == 0
            },
        },
{
    let total = cm.true_pos + cm.false_neg + cm.false_pos + cm.true_neg;
    if total == 0 {
        return Err(Error::EmptyEvaluationSet);
    }
    let correct = cm.true_pos + cm.true_neg;
    Ok((correct, total))
}

/// The four confusion-matrix counters together count exactly the pairs
/// whose two labels are both valid: every valid pair lands in exactly one
/// counter and invalid pairs land in none.
pub proof fn lemma_confusion_totals(a: Seq<i64>, p: Seq<i64>, n: int)
    ensures
        count_pair(a, p, 1i64, 1i64, n) + count_pair(a, p, 1i64, -1i64, n)
            + count_pair(a, p, -1i64, 1i64, n) + count_pair(a, p, -1i64, -1i64, n)
            == count_valid(a, p, n),
    decreases n,
{
    if n > 0 {
        lemma_confusion_totals(a, p, n - 1);
    }
}

} // verus!
