//! The dataset model: ordered records of fixed-point features with a label.
//!
//! A record is a row of `class_index + 1` values: the first `class_index`
//! entries are features, the entry at `class_index` is the label, one of
//! exactly `+1` or `-1`.  A dataset is an ordered sequence of such rows;
//! order matters only to the positional train/test split.

use vstd::prelude::*;
use crate::stats::val_ok;

verus! {

/// A label is one of exactly two values: `+1` (positive class) or `-1`
/// (negative class).
pub open spec fn label_ok(v: i64) -> bool {
    v == 1 || v == -1
}

/// A record holds `class_index` features followed by its label.
pub open spec fn record_wf(r: Vec<i64>, class_index: int) -> bool {
    r@.len() == class_index + 1
}

/// Every record has the uniform length and a valid label.
pub open spec fn dataset_wf(recs: Seq<Vec<i64>>, class_index: int) -> bool {
    forall|r: int| 0 <= r < recs.len() ==>
        record_wf(#[trigger] recs[r], class_index) && label_ok(recs[r]@[class_index])
}

/// Every feature of one record is within `VALUE_BOUND`.
pub open spec fn features_ok(r: Seq<i64>, num_features: int) -> bool {
    forall|j: int| 0 <= j < num_features ==> val_ok(#[trigger] r[j])
}

/// Every feature value of every record is within `VALUE_BOUND`.
pub open spec fn features_bounded(recs: Seq<Vec<i64>>, class_index: int) -> bool {
    forall|r: int| 0 <= r < recs.len() ==> features_ok((#[trigger] recs[r])@, class_index)
}

/// The values of one column across all records, in record order.
pub open spec fn column(recs: Seq<Vec<i64>>, j: int) -> Seq<i64> {
    Seq::new(recs.len(), |r: int| recs[r]@[j])
}

/// The labels of all records, in record order.
pub open spec fn labels(recs: Seq<Vec<i64>>, class_index: int) -> Seq<i64> {
    column(recs, class_index)
}

/// The label column of a dataset as a vector, in record order.
pub fn labels_of(records: &Vec<Vec<i64>>, class_index: usize) -> (result: Vec<i64>)
    requires
        forall|r: int| 0 <= r < records@.len() ==> (#[trigger] records@[r])@.len() > class_index,
    ensures
        result@ == labels(records@, class_index as int),
{
    let n = records.len();
    let mut out: Vec<i64> = Vec::new();
    let mut r: usize = 0;
    while r < n
        invariant
            0 <= r <= n,
            n == records@.len(),
            forall|i: int| 0 <= i < records@.len() ==> (#[trigger] records@[i])@.len() > class_index,
            out@.len() == r,
            forall|i: int| 0 <= i < r ==> #[trigger] out@[i] == records@[i]@[class_index as int],
        decreases n - r,
    {
        let row = &records[r];
        out.push(row[class_index]);
        r = r + 1;
    }
    proof {
        assert(out@ =~= labels(records@, class_index as int));
    }
    out
}

} // verus!
