use vstd::prelude::*;

verus! {

/// A caller-supplied per-element operation for a read-only run, together with
/// the initializer that seeds each worker-local accumulator. The operation is
/// shared by all workers; everything it changes flows through the accumulator
/// it is handed.
pub trait Accumulate<T, I>: Sized {
    /// The fresh accumulator every worker starts from.
    spec fn init_spec(&self) -> I;

    /// The accumulator and element values on which one application of the
    /// operation is defined (for instance, free of overflow).
    spec fn step_ok(&self, acc: I, item: T) -> bool;

    /// What one application of the operation turns the accumulator into.
    spec fn step_spec(&self, acc: I, item: T) -> I;

    /// Produces a fresh accumulator.
    fn init(&self) -> (r: I)
        ensures
            r == self.init_spec(),
    ;

    /// Applies the operation once.
    fn step(&self, acc: I, item: &T) -> (r: I)
        requires
            self.step_ok(acc, *item),
        ensures
            r == self.step_spec(acc, *item),
    ;
}

/// A caller-supplied per-element operation for an in-place run: each element
/// is rewritten exclusively by the worker that owns its chunk, and the
/// accumulator advances alongside.
pub trait AccumulateMut<T, I>: Sized {
    /// The fresh accumulator every worker starts from.
    spec fn init_spec(&self) -> I;

    /// The accumulator and element values on which one application of the
    /// operation is defined.
    spec fn step_ok(&self, acc: I, item: T) -> bool;

    /// What one application turns the accumulator into.
    spec fn acc_spec(&self, acc: I, item: T) -> I;

    /// What one application turns the element into.
    spec fn item_spec(&self, acc: I, item: T) -> T;

    /// Produces a fresh accumulator.
    fn init(&self) -> (r: I)
        ensures
            r == self.init_spec(),
    ;

    /// Applies the operation once, rewriting the element in place.
    fn step(&self, acc: I, item: &mut T) -> (r: I)
        requires
            self.step_ok(acc, *old(item)),
        ensures
            r == self.acc_spec(acc, *old(item)),
            *final(item) == self.item_spec(acc, *old(item)),
    ;
}

/// The caller-supplied reduction: invoked exactly once per run, after every
/// worker has delivered its accumulator, to fold the per-worker partials into
/// the final value. The partials arrive in worker order; a caller who wants
/// the same answer under every dispatch order must supply an order-insensitive
/// reduction.
pub trait Reduce<I, R>: Sized {
    /// The sequences of partials on which the reduction is defined.
    spec fn reduce_ok(&self, parts: Seq<I>) -> bool;

    /// The value the reduction folds a sequence of partials into.
    spec fn reduce_spec(&self, parts: Seq<I>) -> R;

    /// Folds the partial results into the final value.
    fn reduce(&self, parts: Vec<I>) -> (r: R)
        requires
            self.reduce_ok(parts@),
        ensures
            r == self.reduce_spec(parts@),
    ;
}

/// An observer of run progress: the engine tells it how many elements were
/// just completed, one call per reporting window. The engine guarantees that
/// each window's count is reported exactly once, in processing order, and
/// that the counts sum to exactly the number of elements processed.
pub trait Progress: Sized {
    /// The counts reported so far, one entry per notification, in order.
    spec fn log(&self) -> Seq<int>;

    /// Records that `n` more elements were completed.
    fn notify(&mut self, n: usize)
        ensures
            final(self).log() == old(self).log().push(n as int),
    ;
}

/// The no-op progress observer: it keeps no run-time state at all, only the
/// ghost log that its contract speaks of.
pub struct NoProgress {
    /// Ghost record of the counts received, in order.
    pub tally: Ghost<Seq<int>>,
}

impl NoProgress {
    /// A fresh observer with an empty log.
    pub fn new() -> (r: Self)
        ensures
            r.log() == Seq::<int>::empty(),
    {
        NoProgress { tally: Ghost(Seq::empty()) }
    }
}

impl Progress for NoProgress {
    open spec fn log(&self) -> Seq<int> {
        self.tally@
    }

    fn notify(&mut self, n: usize) {
        proof {
            self.tally@ = self.tally@.push(n as int);
        }
    }
}

/// The accumulator that results from applying `w`'s operation to every
/// element of `s` in order, starting from `a`.
pub open spec fn fold_spec<T, I, W: Accumulate<T, I>>(w: W, s: Seq<T>, a: I) -> I
    decreases s.len(),
{
    if s.len() == 0 {
        a
    } else {
        w.step_spec(fold_spec(w, s.drop_last(), a), s.last())
    }
}

/// Whether every application made while folding `w`'s operation over `s` from
/// `a` is applied on values it is defined for.
pub open spec fn fold_ok<T, I, W: Accumulate<T, I>>(w: W, s: Seq<T>, a: I) -> bool
    decreases s.len(),
{
    s.len() == 0 || {
        &&& fold_ok(w, s.drop_last(), a)
        &&& w.step_ok(fold_spec(w, s.drop_last(), a), s.last())
    }
}

/// A fold that is defined over a sequence is defined over each of its
/// prefixes.
pub proof fn lemma_fold_ok_prefix<T, I, W: Accumulate<T, I>>(w: W, s: Seq<T>, a: I, p: int)
    requires
        fold_ok(w, s, a),
        0 <= p <= s.len(),
    ensures
        fold_ok(w, s.take(p), a),
    decreases s.len() - p,
{
    if p == s.len() {
        assert(s.take(p) =~= s);
    } else {
        lemma_fold_ok_prefix(w, s, a, p + 1);
        assert(s.take(p + 1).drop_last() =~= s.take(p));
    }
}

/// One step of a fold, read off a prefix boundary: after `p` elements the
/// next application is defined, and extending the prefix by one element
/// advances the accumulator by exactly one application.
pub proof fn lemma_fold_step<T, I, W: Accumulate<T, I>>(w: W, s: Seq<T>, a: I, p: int)
    requires
        fold_ok(w, s, a),
        0 <= p < s.len(),
    ensures
        w.step_ok(fold_spec(w, s.take(p), a), s[p]),
        fold_spec(w, s.take(p + 1), a) == w.step_spec(fold_spec(w, s.take(p), a), s[p]),
{
    lemma_fold_ok_prefix(w, s, a, p + 1);
    assert(s.take(p + 1).drop_last() =~= s.take(p));
    assert(s.take(p + 1).last() == s[p]);
}

/// Folds `work`'s operation over `items[start..end]`, in index order,
/// starting from `acc`: the step a worker performs for one dispatched chunk
/// or reporting window. Parallel front ends drive their workers through this
/// function, so every per-element application they make is the verified one.
pub fn fold_slice<T, I, W: Accumulate<T, I>>(
    items: &[T],
    start: usize,
    end: usize,
    acc: I,
    work: &W,
) -> (r: I)
    requires
        start <= end <= items@.len(),
        fold_ok(*work, items@.subrange(start as int, end as int), acc),
    ensures
        r == fold_spec(*work, items@.subrange(start as int, end as int), acc),
{
    let ghost sub = items@.subrange(start as int, end as int);
    let mut r = acc;
    let mut p = start;
    proof {
        assert(sub.take(0) =~= Seq::<T>::empty());
    }
    while p < end
        invariant
            start <= p <= end,
            end <= items@.len(),
            sub == items@.subrange(start as int, end as int),
            fold_ok(*work, sub, acc),
            r == fold_spec(*work, sub.take(p - start), acc),
        decreases end - p,
    {
        proof {
            lemma_fold_step(*work, sub, acc, p - start);
            assert(sub[p - start] == items@[p as int]);
        }
        r = work.step(r, &items[p]);
        p = p + 1;
    }
    proof {
        assert(sub.take(end - start) =~= sub);
    }
    r
}

/// The accumulator that results from an in-place fold of `w` over `s`.
pub open spec fn fold_mut_acc<T, I, W: AccumulateMut<T, I>>(w: W, s: Seq<T>, a: I) -> I
    decreases s.len(),
{
    if s.len() == 0 {
        a
    } else {
        w.acc_spec(fold_mut_acc(w, s.drop_last(), a), s.last())
    }
}

/// The sequence an in-place fold of `w` rewrites `s` into: each element is
/// replaced under the accumulator the fold had reached just before it.
pub open spec fn fold_mut_items<T, I, W: AccumulateMut<T, I>>(w: W, s: Seq<T>, a: I) -> Seq<T>
    decreases s.len(),
{
    if s.len() == 0 {
        Seq::empty()
    } else {
        fold_mut_items(w, s.drop_last(), a).push(
            w.item_spec(fold_mut_acc(w, s.drop_last(), a), s.last()),
        )
    }
}

/// Whether every application made by an in-place fold of `w` over `s` is
/// applied on values it is defined for.
pub open spec fn fold_mut_ok<T, I, W: AccumulateMut<T, I>>(w: W, s: Seq<T>, a: I) -> bool
    decreases s.len(),
{
    s.len() == 0 || {
        &&& fold_mut_ok(w, s.drop_last(), a)
        &&& w.step_ok(fold_mut_acc(w, s.drop_last(), a), s.last())
    }
}

/// An in-place fold rewrites a sequence into one of the same length.
pub proof fn lemma_fold_mut_items_len<T, I, W: AccumulateMut<T, I>>(w: W, s: Seq<T>, a: I)
    ensures
        fold_mut_items(w, s, a).len() == s.len(),
    decreases s.len(),
{
    if s.len() > 0 {
        lemma_fold_mut_items_len(w, s.drop_last(), a);
    }
}

/// An in-place fold that is defined over a sequence is defined over each of
/// its prefixes.
pub proof fn lemma_fold_mut_ok_prefix<T, I, W: AccumulateMut<T, I>>(w: W, s: Seq<T>, a: I, p: int)
    requires
        fold_mut_ok(w, s, a),
        0 <= p <= s.len(),
    ensures
        fold_mut_ok(w, s.take(p), a),
    decreases s.len() - p,
{
    if p == s.len() {
        assert(s.take(p) =~= s);
    } else {
        lemma_fold_mut_ok_prefix(w, s, a, p + 1);
        assert(s.take(p + 1).drop_last() =~= s.take(p));
    }
}

/// One step of an in-place fold, read off a prefix boundary.
pub proof fn lemma_fold_mut_step<T, I, W: AccumulateMut<T, I>>(w: W, s: Seq<T>, a: I, p: int)
    requires
        fold_mut_ok(w, s, a),
        0 <= p < s.len(),
    ensures
        w.step_ok(fold_mut_acc(w, s.take(p), a), s[p]),
        fold_mut_acc(w, s.take(p + 1), a) == w.acc_spec(fold_mut_acc(w, s.take(p), a), s[p]),
        fold_mut_items(w, s.take(p + 1), a) == fold_mut_items(w, s.take(p), a).push(
            w.item_spec(fold_mut_acc(w, s.take(p), a), s[p]),
        ),
{
    lemma_fold_mut_ok_prefix(w, s, a, p + 1);
    assert(s.take(p + 1).drop_last() =~= s.take(p));
    assert(s.take(p + 1).last() == s[p]);
}

} // verus!
