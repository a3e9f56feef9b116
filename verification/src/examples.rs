use vstd::prelude::*;

use crate::ops::Accumulate;
use crate::ops::AccumulateMut;
use crate::ops::Reduce;

verus! {

/// The sum of a sequence of signed machine integers, as an unbounded integer.
pub open spec fn seq_sum(s: Seq<i64>) -> int
    decreases s.len(),
{
    if s.len() == 0 {
        0
    } else {
        seq_sum(s.drop_last()) + s.last()
    }
}

/// Whether summing `s` left to right stays within the machine range at every
/// intermediate step.
pub open spec fn seq_sum_ok(s: Seq<i64>) -> bool
    decreases s.len(),
{
    s.len() == 0 || {
        &&& seq_sum_ok(s.drop_last())
        &&& i64::MIN <= seq_sum(s.drop_last()) + s.last() <= i64::MAX
    }
}

/// A bounded running sum is bounded over each of its prefixes.
pub proof fn lemma_seq_sum_ok_prefix(s: Seq<i64>, p: int)
    requires
        seq_sum_ok(s),
        0 <= p <= s.len(),
    ensures
        seq_sum_ok(s.take(p)),
    decreases s.len() - p,
{
    if p == s.len() {
        assert(s.take(p) =~= s);
    } else {
        lemma_seq_sum_ok_prefix(s, p + 1);
        assert(s.take(p + 1).drop_last() =~= s.take(p));
    }
}

/// One step of a running sum, read off a prefix boundary.
pub proof fn lemma_seq_sum_step(s: Seq<i64>, p: int)
    requires
        seq_sum_ok(s),
        0 <= p < s.len(),
    ensures
        i64::MIN <= seq_sum(s.take(p)) + s[p] <= i64::MAX,
        seq_sum(s.take(p + 1)) == seq_sum(s.take(p)) + s[p],
    decreases s.len() - p,
{
    lemma_seq_sum_ok_prefix(s, p + 1);
    assert(s.take(p + 1).drop_last() =~= s.take(p));
    assert(s.take(p + 1).last() == s[p]);
}

/// The per-element operation of the sum-of-squares example: each worker adds
/// the square of every element it sees to its own running sum.
pub struct SumSquares;

impl Accumulate<i64, i64> for SumSquares {
    open spec fn init_spec(&self) -> i64 {
        0
    }

    open spec fn step_ok(&self, acc: i64, item: i64) -> bool {
        &&& item * item <= i64::MAX
        &&& acc + item * item <= i64::MAX
    }

    open spec fn step_spec(&self, acc: i64, item: i64) -> i64 {
        (acc + item * item) as i64
    }

    fn init(&self) -> (r: i64) {
        0
    }

    fn step(&self, acc: i64, item: &i64) -> (r: i64) {
        let x = *item;
        proof {
            assert(x * x >= 0) by (nonlinear_arith);
        }
        acc + x * x
    }
}

/// The per-element operation of the in-place squaring example: each element
/// is replaced by its square; the accumulator carries nothing.
pub struct SquareInPlace;

impl AccumulateMut<i64, ()> for SquareInPlace {
    open spec fn init_spec(&self) -> () {
        ()
    }

    open spec fn step_ok(&self, acc: (), item: i64) -> bool {
        item * item <= i64::MAX
    }

    open spec fn acc_spec(&self, acc: (), item: i64) -> () {
        ()
    }

    open spec fn item_spec(&self, acc: (), item: i64) -> i64 {
        (item * item) as i64
    }

    fn init(&self) -> (r: ()) {
        ()
    }

    fn step(&self, acc: (), item: &mut i64) -> (r: ()) {
        let x = *item;
        proof {
            assert(x * x >= 0) by (nonlinear_arith);
        }
        *item = x * x;
        ()
    }
}

/// The reduction of the sum-of-squares example: adds up the per-worker
/// partial sums. Addition is order-insensitive, as the engine asks.
pub struct SumReduce;

impl Reduce<i64, i64> for SumReduce {
    open spec fn reduce_ok(&self, parts: Seq<i64>) -> bool {
        seq_sum_ok(parts)
    }

    open spec fn reduce_spec(&self, parts: Seq<i64>) -> i64 {
        seq_sum(parts) as i64
    }

    fn reduce(&self, parts: Vec<i64>) -> (r: i64) {
        let mut total: i64 = 0;
        let mut i: usize = 0;
        proof {
            assert(parts@.take(0) =~= Seq::<i64>::empty());
        }
        while i < parts.len()
            invariant
                0 <= i <= parts@.len(),
                seq_sum_ok(parts@),
                total == seq_sum(parts@.take(i as int)),
            decreases parts@.len() - i,
        {
            proof {
                lemma_seq_sum_step(parts@, i as int);
            }
            total = total + parts[i];
            i = i + 1;
        }
        proof {
            assert(parts@.take(parts@.len() as int) =~= parts@);
        }
        total
    }
}

/// The per-element operation of the word-count example: elements are words
/// coded as integers, and each worker counts the occurrences of one chosen
/// word in the elements it sees. One run per distinct word, reduced with
/// `SumReduce`, merges the counts across chunks and workers.
pub struct KeyCount {
    /// The coded word being counted.
    pub key: u64,
}

impl Accumulate<u64, i64> for KeyCount {
    open spec fn init_spec(&self) -> i64 {
        0
    }

    open spec fn step_ok(&self, acc: i64, item: u64) -> bool {
        acc < i64::MAX
    }

    open spec fn step_spec(&self, acc: i64, item: u64) -> i64 {
        if item == self.key {
            (acc + 1) as i64
        } else {
            acc
        }
    }

    fn init(&self) -> (r: i64) {
        0
    }

    fn step(&self, acc: i64, item: &u64) -> (r: i64) {
        if *item == self.key {
            acc + 1
        } else {
            acc
        }
    }
}

/// The reduction of the in-place squaring example: it only counts the
/// accumulators received, one per worker.
pub struct CountReduce;

impl Reduce<(), usize> for CountReduce {
    open spec fn reduce_ok(&self, parts: Seq<()>) -> bool {
        parts.len() <= usize::MAX
    }

    open spec fn reduce_spec(&self, parts: Seq<()>) -> usize {
        parts.len() as usize
    }

    fn reduce(&self, parts: Vec<()>) -> (r: usize) {
        parts.len()
    }
}

} // verus!
