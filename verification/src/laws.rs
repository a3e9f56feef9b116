use vstd::prelude::*;

use crate::engine::partials_mut_spec;
use crate::engine::partials_spec;
use crate::examples::SquareInPlace;
use crate::examples::SumReduce;
use crate::examples::SumSquares;
use crate::examples::seq_sum;
use crate::examples::seq_sum_ok;
use crate::ops::Accumulate;
use crate::ops::AccumulateMut;
use crate::ops::Reduce;
use crate::ops::fold_mut_items;
use crate::ops::fold_mut_ok;
use crate::ops::fold_ok;
use crate::ops::fold_spec;

verus! {

/// Summing one value followed by any number of zeros gives back that value,
/// within bounds at every step.
proof fn lemma_sum_with_trailing_zeros(x: i64, n: nat)
    ensures
        seq_sum(seq![x].add(Seq::new(n, |i: int| 0i64))) == x,
        seq_sum_ok(seq![x].add(Seq::new(n, |i: int| 0i64))),
    decreases n,
{
    let s = seq![x].add(Seq::new(n, |i: int| 0i64));
    if n == 0 {
        assert(s.drop_last() =~= Seq::<i64>::empty());
        assert(s.last() == x);
        assert(s.len() == 1);
        assert(seq_sum_ok(Seq::<i64>::empty()));
        assert(seq_sum(s) == seq_sum(s.drop_last()) + s.last());
        assert(seq_sum(s) == x);
        assert(seq_sum_ok(s));
    } else {
        lemma_sum_with_trailing_zeros(x, (n - 1) as nat);
        let t = seq![x].add(Seq::new((n - 1) as nat, |i: int| 0i64));
        assert(seq_sum(t) == x && seq_sum_ok(t));
        assert(s.drop_last() =~= t);
        assert(s.last() == 0i64);
        assert(seq_sum(s) == seq_sum(s.drop_last()) + s.last());
        assert(seq_sum(s) == x);
        assert(seq_sum_ok(s));
    }
}

/// Removing one element from a sequence removes exactly its contribution
/// from the sum.
proof fn lemma_seq_sum_remove(s: Seq<i64>, j: int)
    requires
        0 <= j < s.len(),
    ensures
        seq_sum(s) == seq_sum(s.remove(j)) + s[j],
    decreases s.len(),
{
    if j == s.len() - 1 {
        assert(s.remove(j) =~= s.drop_last());
    } else {
        lemma_seq_sum_remove(s.drop_last(), j);
        assert(s.remove(j).drop_last() =~= s.drop_last().remove(j));
        assert(s.remove(j).last() == s.last());
        assert(seq_sum(s.remove(j)) == seq_sum(s.drop_last().remove(j)) + s.last());
    }
}

/// The example reduction is order-insensitive, as the engine asks of its
/// callers: two arrival orders of the same collection of accumulators sum to
/// the same total, so the final result does not depend on the order in which
/// workers happen to deliver.
pub proof fn lemma_sum_reduce_order_insensitive(s1: Seq<i64>, s2: Seq<i64>)
    requires
        s1.to_multiset() == s2.to_multiset(),
    ensures
        seq_sum(s1) == seq_sum(s2),
        SumReduce.reduce_spec(s1) == SumReduce.reduce_spec(s2),
    decreases s1.len(),
{
    s1.to_multiset_ensures();
    s2.to_multiset_ensures();
    if s1.len() == 0 {
        assert(s2.len() == 0);
    } else {
        let x = s1.last();
        assert(s1.to_multiset().count(x) > 0) by {
            assert(s1.contains(x));
        }
        assert(s2.contains(x));
        let j = choose|j: int| 0 <= j < s2.len() && s2[j] == x;
        assert(s1.remove(s1.len() - 1) =~= s1.drop_last());
        assert(s1.drop_last().to_multiset() == s1.to_multiset().remove(x));
        assert(s2.remove(j).to_multiset() == s2.to_multiset().remove(x));
        lemma_sum_reduce_order_insensitive(s1.drop_last(), s2.remove(j));
        lemma_seq_sum_remove(s2, j);
    }
}

/// Empty input: a run over a sequence of length zero hands the reduction
/// exactly `tc` accumulators, one per worker, each equal to the initializer's
/// output — no worker processes anything.
pub proof fn lemma_empty_input<T, I, W: Accumulate<T, I>>(w: W, tc: int)
    requires
        1 <= tc,
    ensures
        partials_spec(w, Seq::<T>::empty(), tc) == Seq::new(tc as nat, |i: int| w.init_spec()),
{
    assert(partials_spec(w, Seq::<T>::empty(), tc) =~= Seq::new(
        tc as nat,
        |i: int| w.init_spec(),
    ));
}

/// Empty input, in-place run: nothing is rewritten, and the reduction again
/// receives one untouched initial accumulator per worker.
pub proof fn lemma_empty_input_mut<T, I, W: AccumulateMut<T, I>>(w: W, tc: int)
    requires
        1 <= tc,
    ensures
        fold_mut_items(w, Seq::<T>::empty(), w.init_spec()) == Seq::<T>::empty(),
        partials_mut_spec(w, Seq::<T>::empty(), tc) == Seq::new(
            tc as nat,
            |i: int| w.init_spec(),
        ),
{
    assert(partials_mut_spec(w, Seq::<T>::empty(), tc) =~= Seq::new(
        tc as nat,
        |i: int| w.init_spec(),
    ));
}

/// Single element, any worker count: exactly one worker does any work — its
/// accumulator holds one application of the operation — and every other
/// worker delivers its initial accumulator untouched, yet the result is still
/// built from all `tc` partials.
pub proof fn lemma_single_element<T, I, W: Accumulate<T, I>>(w: W, x: T, tc: int)
    requires
        1 <= tc,
        w.step_ok(w.init_spec(), x),
    ensures
        fold_ok(w, seq![x], w.init_spec()),
        partials_spec(w, seq![x], tc) == seq![w.step_spec(w.init_spec(), x)].add(
            Seq::new((tc - 1) as nat, |i: int| w.init_spec()),
        ),
{
    let s = seq![x];
    assert(s.drop_last() =~= Seq::<T>::empty());
    assert(s.last() == x);
    assert(fold_ok(w, Seq::<T>::empty(), w.init_spec()));
    assert(fold_spec(w, Seq::<T>::empty(), w.init_spec()) == w.init_spec());
    assert(fold_ok(w, s, w.init_spec()));
    assert(fold_spec(w, s, w.init_spec()) == w.step_spec(w.init_spec(), x));
    assert(partials_spec(w, s, tc) =~= seq![w.step_spec(w.init_spec(), x)].add(
        Seq::new((tc - 1) as nat, |i: int| w.init_spec()),
    ));
}

/// In-place mutation: an in-place run with the squaring operation rewrites
/// every element of the input to its square — whatever the worker count and
/// chunk size, since the rewritten sequence the engine's contract promises
/// does not depend on either.
pub proof fn lemma_square_in_place_rewrites(s: Seq<i64>)
    requires
        forall|i: int| 0 <= i < s.len() ==> #[trigger] (s[i] * s[i]) <= i64::MAX,
    ensures
        fold_mut_ok(SquareInPlace, s, ()),
        fold_mut_items(SquareInPlace, s, ()).len() == s.len(),
        forall|i: int|
            0 <= i < s.len() ==> fold_mut_items(SquareInPlace, s, ())[i] == (s[i] * s[i]) as i64,
    decreases s.len(),
{
    let w = SquareInPlace;
    if s.len() > 0 {
        let t = s.drop_last();
        assert forall|i: int| 0 <= i < t.len() implies #[trigger] (t[i] * t[i]) <= i64::MAX by {
            assert(t[i] == s[i]);
        }
        lemma_square_in_place_rewrites(t);
        assert(s.last() * s.last() <= i64::MAX);
        assert(fold_mut_items(w, s, ()) == fold_mut_items(w, t, ()).push(
            w.item_spec((), s.last()),
        ));
        assert forall|i: int|
            0 <= i < s.len() implies fold_mut_items(w, s, ())[i] == (s[i] * s[i]) as i64 by {
            if i < s.len() - 1 {
                assert(fold_mut_items(w, s, ())[i] == fold_mut_items(w, t, ())[i]);
                assert(t[i] == s[i]);
            } else {
                assert(fold_mut_items(w, s, ())[i] == w.item_spec((), s.last()));
            }
        }
    }
}

/// Correct reduction, sum of squares: over the input `1, 2, 3, 4, 5`, with an
/// accumulator starting at zero, a per-element operation adding the element's
/// square and a reduction summing the partials, every run answers exactly 55,
/// for every worker count — and for every chunk size, since the engine's
/// result does not depend on the chunk size at all.
pub proof fn lemma_sum_of_squares_example(tc: int)
    requires
        1 <= tc,
    ensures
        fold_ok(SumSquares, seq![1i64, 2i64, 3i64, 4i64, 5i64], 0i64),
        SumReduce.reduce_ok(partials_spec(SumSquares, seq![1i64, 2i64, 3i64, 4i64, 5i64], tc)),
        SumReduce.reduce_spec(partials_spec(SumSquares, seq![1i64, 2i64, 3i64, 4i64, 5i64], tc))
            == 55i64,
{
    let w = SumSquares;
    let s5 = seq![1i64, 2i64, 3i64, 4i64, 5i64];
    let s4 = seq![1i64, 2i64, 3i64, 4i64];
    let s3 = seq![1i64, 2i64, 3i64];
    let s2 = seq![1i64, 2i64];
    let s1 = seq![1i64];
    let s0 = Seq::<i64>::empty();
    assert(s1.drop_last() =~= s0 && s1.last() == 1i64);
    assert(s2.drop_last() =~= s1 && s2.last() == 2i64);
    assert(s3.drop_last() =~= s2 && s3.last() == 3i64);
    assert(s4.drop_last() =~= s3 && s4.last() == 4i64);
    assert(s5.drop_last() =~= s4 && s5.last() == 5i64);
    assert(fold_spec(w, s0, 0i64) == 0i64);
    assert(fold_spec(w, s1, 0i64) == 1i64);
    assert(fold_spec(w, s2, 0i64) == 5i64);
    assert(fold_spec(w, s3, 0i64) == 14i64);
    assert(fold_spec(w, s4, 0i64) == 30i64);
    assert(fold_spec(w, s5, 0i64) == 55i64);
    assert(fold_ok(w, s0, 0i64));
    assert(fold_ok(w, s1, 0i64));
    assert(fold_ok(w, s2, 0i64));
    assert(fold_ok(w, s3, 0i64));
    assert(fold_ok(w, s4, 0i64));
    assert(fold_ok(w, s5, 0i64));
    lemma_sum_with_trailing_zeros(55i64, (tc - 1) as nat);
    assert(partials_spec(w, s5, tc) == seq![55i64].add(Seq::new((tc - 1) as nat, |i: int| 0i64)));
}

} // verus!
