//! The positional train/test splitter.
//!
//! Given a ratio `num / den` strictly between zero and one, the first
//! `floor(num * len / den)` records become the training set and the rest the
//! test set, in order and without shuffling: a caller wanting a randomized
//! split shuffles beforehand.

use vstd::prelude::*;
use vstd::arithmetic::div_mod::{lemma_div_pos_is_pos, lemma_multiply_divide_le};
use vstd::arithmetic::mul::lemma_mul_inequality;

verus! {

/// How many records the training set takes from a dataset of `n` records
/// under the ratio `num / den`: the floor of `num * n / den`.
pub open spec fn train_count(n: int, num: int, den: int) -> int
    recommends 0 < num < den,
{
    (num * n) / den
}

/// Splits a dataset at `floor(num * len / den)`: the leading records train,
/// the trailing records test, both in original order, and together they are
/// exactly the original dataset.
pub fn split_dataset(records: Vec<Vec<i64>>, num: usize, den: usize) -> (result: (Vec<Vec<i64>>, Vec<Vec<i64>>))
    requires
        0 < num < den,
    ensures
        result.0@.len() == train_count(records@.len() as int, num as int, den as int),
        result.0@.len() + result.1@.len() == records@.len(),
        result.0@ == records@.take(result.0@.len() as int),
        result.1@ == records@.skip(result.0@.len() as int),
        result.0@ + result.1@ == records@,
{
    let n = records.len();
    proof {
        assert((num as int) * (n as int) < 0x1_0000_0000_0000_0000_0000_0000_0000_0000int) by (nonlinear_arith)
            requires 0 <= num <= 0xffff_ffff_ffff_ffffu64, 0 <= n <= 0xffff_ffff_ffff_ffffu64,
        {}
    }
    let tc_wide: u128 = (num as u128) * (n as u128) / (den as u128);
    proof {
        lemma_mul_inequality(num as int, den as int, n as int);
        lemma_multiply_divide_le((num as int) * (n as int), den as int, n as int);
        lemma_div_pos_is_pos((num as int) * (n as int), den as int);
    }
    let tc: usize = tc_wide as usize;
    let mut train = records;
    let test = train.split_off(tc);
    proof {
        assert(train@ + test@ =~= records@);
        assert(train@ =~= records@.take(tc as int));
        assert(test@ =~= records@.skip(tc as int));
    }
    (train, test)
}

} // verus!
