use vstd::prelude::*;

use crate::chunks::ChunkCursor;
use crate::config::Config;
use crate::ops::Accumulate;
use crate::ops::AccumulateMut;
use crate::ops::NoProgress;
use crate::ops::Progress;
use crate::ops::Reduce;
use crate::ops::fold_mut_acc;
use crate::ops::fold_mut_items;
use crate::ops::fold_mut_ok;
use crate::ops::fold_ok;
use crate::ops::fold_spec;
use crate::ops::lemma_fold_mut_items_len;
use crate::ops::lemma_fold_mut_step;
use crate::ops::lemma_fold_step;

verus! {

/// The accumulators a run delivers to the reduction, in worker order: the
/// engine dispatches each chunk to the first worker asking for work, so the
/// first accumulator folds the whole input and every other worker, having
/// found the cursor exhausted, delivers its untouched initial accumulator.
/// In particular, an empty input yields `tc` initial accumulators, and a
/// single element is processed by exactly one worker.
pub open spec fn partials_spec<T, I, W: Accumulate<T, I>>(w: W, s: Seq<T>, tc: int) -> Seq<I>
    recommends
        1 <= tc,
{
    seq![fold_spec(w, s, w.init_spec())].add(Seq::new((tc - 1) as nat, |i: int| w.init_spec()))
}

/// The accumulators an in-place run delivers to the reduction, in worker
/// order; see `partials_spec`.
pub open spec fn partials_mut_spec<T, I, W: AccumulateMut<T, I>>(w: W, s: Seq<T>, tc: int) -> Seq<
    I,
>
    recommends
        1 <= tc,
{
    seq![fold_mut_acc(w, s, w.init_spec())].add(Seq::new((tc - 1) as nat, |i: int| w.init_spec()))
}

/// The reporting windows of one chunk of `l` elements: full windows of
/// `step` elements, the last holding the remainder.
pub open spec fn chunk_windows(l: int, step: int) -> Seq<int>
    recommends
        1 <= step,
    decreases l,
    when 1 <= step
{
    if l <= 0 {
        Seq::empty()
    } else if l <= step {
        seq![l]
    } else {
        seq![step].add(chunk_windows(l - step, step))
    }
}

/// The counts a run reports, in order: the input is cut into chunks of the
/// effective chunk size `ec`, each chunk into reporting windows of at most
/// `step` elements, and one count is reported per window as it completes.
pub open spec fn window_counts(len: int, ec: int, step: int) -> Seq<int>
    recommends
        1 <= ec,
        1 <= step,
    decreases len,
    when 1 <= ec && 1 <= step
{
    if len <= 0 {
        Seq::empty()
    } else {
        let chunk = if len <= ec {
            len
        } else {
            ec
        };
        chunk_windows(chunk, step).add(window_counts(len - chunk, ec, step))
    }
}

/// The full log a run with configuration `c` appends to its observer.
pub open spec fn report_log(c: Config, len: int) -> Seq<int> {
    window_counts(len, c.spec_effective_chunk_size(len), c.spec_report_step(len))
}

/// The total of a sequence of counts.
pub open spec fn counts_total(s: Seq<int>) -> int
    decreases s.len(),
{
    if s.len() == 0 {
        0
    } else {
        counts_total(s.drop_last()) + s.last()
    }
}

proof fn lemma_counts_total_concat(s1: Seq<int>, s2: Seq<int>)
    ensures
        counts_total(s1.add(s2)) == counts_total(s1) + counts_total(s2),
    decreases s2.len(),
{
    if s2.len() == 0 {
        assert(s1.add(s2) =~= s1);
    } else {
        lemma_counts_total_concat(s1, s2.drop_last());
        assert(s1.add(s2).drop_last() =~= s1.add(s2.drop_last()));
        assert(s1.add(s2).last() == s2.last());
    }
}

proof fn lemma_chunk_windows_total(l: int, step: int)
    requires
        1 <= step,
    ensures
        counts_total(chunk_windows(l, step)) == if l <= 0 {
            0
        } else {
            l
        },
        forall|i: int|
            0 <= i < chunk_windows(l, step).len() ==> 1 <= #[trigger] chunk_windows(l, step)[i]
                <= step,
    decreases l,
{
    if l <= 0 {
    } else if l <= step {
        assert(chunk_windows(l, step) =~= seq![l]);
        assert(counts_total(seq![l]) == counts_total(seq![l].drop_last()) + l);
        assert(seq![l].drop_last() =~= Seq::<int>::empty());
    } else {
        lemma_chunk_windows_total(l - step, step);
        lemma_counts_total_concat(seq![step], chunk_windows(l - step, step));
        assert(counts_total(seq![step]) == step) by {
            assert(seq![step].drop_last() =~= Seq::<int>::empty());
            assert(counts_total(Seq::<int>::empty()) == 0);
            assert(seq![step].last() == step);
        }
        assert forall|i: int| 0 <= i < chunk_windows(l, step).len() implies 1 <= #[trigger] chunk_windows(
            l,
            step,
        )[i] <= step by {
            if i > 0 {
                assert(chunk_windows(l, step)[i] == chunk_windows(l - step, step)[i - 1]);
            }
        }
    }
}

/// Progress is complete and never over-reported: the counts a run reports
/// sum to exactly the number of elements processed, and every reported
/// window holds at least one and at most `step` elements.
pub proof fn lemma_window_counts_total(len: int, ec: int, step: int)
    requires
        0 <= len,
        1 <= ec,
        1 <= step,
    ensures
        counts_total(window_counts(len, ec, step)) == len,
        forall|i: int|
            0 <= i < window_counts(len, ec, step).len() ==> 1 <= #[trigger] window_counts(
                len,
                ec,
                step,
            )[i] <= step,
    decreases len,
{
    if len == 0 {
    } else {
        let chunk = if len <= ec {
            len
        } else {
            ec
        };
        lemma_window_counts_total(len - chunk, ec, step);
        lemma_chunk_windows_total(chunk, step);
        lemma_counts_total_concat(chunk_windows(chunk, step), window_counts(len - chunk, ec, step));
        assert forall|i: int| 0 <= i < window_counts(len, ec, step).len() implies 1 <= #[trigger] window_counts(
            len,
            ec,
            step,
        )[i] <= step by {
            let head = chunk_windows(chunk, step);
            if i >= head.len() {
                assert(window_counts(len, ec, step)[i] == window_counts(len - chunk, ec, step)[i
                    - head.len()]);
            }
        }
    }
}

/// The execution engine: owns one configuration and runs any number of
/// partition, dispatch, collect and reduce cycles with it.
pub struct Chunker {
    config: Config,
}

impl Chunker {
    /// The configuration the engine was built with; it never changes over the
    /// engine's lifetime.
    pub closed spec fn spec_config(self) -> Config {
        self.config
    }

    /// An engine is well formed when its configuration is.
    pub open spec fn wf(self) -> bool {
        self.spec_config().wf()
    }

    /// A ready-to-use engine holding `config`.
    pub fn new(config: Config) -> (r: Self)
        requires
            config.wf(),
        ensures
            r.spec_config() == config,
    {
        Chunker { config }
    }

    /// A read-only run that also reports progress: processes every element of
    /// `items` exactly once through `work`'s operation, reporting each
    /// completed window's count to `progress` exactly once, in processing
    /// order, and reduces the per-worker accumulators through `gather`. The
    /// result is pinned as a function of the input, the operation and the
    /// reduction alone; the appended log is exactly the run's window
    /// schedule, whose counts sum to the number of elements processed
    /// (`lemma_window_counts_total`).
    pub fn run_reported<T, I, R, W: Accumulate<T, I>, G: Reduce<I, R>, P: Progress>(
        &self,
        items: &Vec<T>,
        work: &W,
        gather: &G,
        progress: &mut P,
    ) -> (r: R)
        requires
            self.wf(),
            fold_ok(*work, items@, work.init_spec()),
            gather.reduce_ok(
                partials_spec(*work, items@, self.spec_config().thread_count as int),
            ),
        ensures
            r == gather.reduce_spec(
                partials_spec(*work, items@, self.spec_config().thread_count as int),
            ),
            final(progress).log() == old(progress).log().add(
                report_log(self.spec_config(), items@.len() as int),
            ),
    {
        let ghost s = items@;
        let ghost a0 = work.init_spec();
        let ghost r0log = old(progress).log();
        let len = items.len();
        let tc = self.config.thread_count;
        let ec = self.config.effective_chunk_size(len);
        let step = if self.config.progress_bar {
            self.config.bar_step
        } else {
            ec
        };
        let ghost full = window_counts(s.len() as int, ec as int, step as int);
        proof {
            assert(full == report_log(self.spec_config(), s.len() as int));
        }
        let mut cursor = ChunkCursor::new(len, ec);
        let mut acc = work.init();
        loop
            invariant
                cursor.wf(),
                cursor.spec_total() == s.len(),
                cursor.spec_chunk_size() == ec as int,
                0 <= cursor.spec_pos() <= s.len(),
                items@ == s,
                1 <= step,
                1 <= ec,
                fold_ok(*work, s, a0),
                a0 == work.init_spec(),
                acc == fold_spec(*work, s.take(cursor.spec_pos()), a0),
                full == window_counts(s.len() as int, ec as int, step as int),
                r0log.add(full) == progress.log().add(
                    window_counts(s.len() - cursor.spec_pos(), ec as int, step as int),
                ),
            ensures
                acc == fold_spec(*work, s, a0),
                progress.log() == r0log.add(full),
            decreases s.len() - cursor.spec_pos(),
        {
            match cursor.next() {
                None => {
                    proof {
                        assert(s.take(cursor.spec_pos()) =~= s);
                        assert(progress.log().add(Seq::<int>::empty()) =~= progress.log());
                    }
                    break ;
                },
                Some(bounds) => {
                    let start = bounds.0;
                    let end = bounds.1;
                    proof {
                        assert(window_counts(s.len() - start, ec as int, step as int)
                            == chunk_windows(end - start, step as int).add(
                            window_counts(s.len() - end, ec as int, step as int),
                        ));
                    }
                    let mut p = start;
                    while p < end
                        invariant
                            items@ == s,
                            fold_ok(*work, s, a0),
                            a0 == work.init_spec(),
                            start <= p <= end,
                            end <= s.len(),
                            1 <= step,
                            acc == fold_spec(*work, s.take(p as int), a0),
                            r0log.add(full) == progress.log().add(
                                chunk_windows(end - p, step as int).add(
                                    window_counts(s.len() - end, ec as int, step as int),
                                ),
                            ),
                        decreases end - p,
                    {
                        let wstart = p;
                        let wend = if end - p <= step {
                            end
                        } else {
                            p + step
                        };
                        while p < wend
                            invariant
                                items@ == s,
                                fold_ok(*work, s, a0),
                                a0 == work.init_spec(),
                                wstart <= p <= wend,
                                wend <= s.len(),
                                acc == fold_spec(*work, s.take(p as int), a0),
                            decreases wend - p,
                        {
                            proof {
                                lemma_fold_step(*work, s, a0, p as int);
                            }
                            acc = work.step(acc, &items[p]);
                            p = p + 1;
                        }
                        proof {
                            let c = (wend - wstart) as int;
                            let rest = window_counts(s.len() - end, ec as int, step as int);
                            assert(chunk_windows(end - wstart, step as int) =~= seq![c].add(
                                chunk_windows(end - wend, step as int),
                            ));
                            assert(progress.log().add(
                                seq![c].add(chunk_windows(end - wend, step as int)).add(rest),
                            ) =~= progress.log().push(c).add(
                                chunk_windows(end - wend, step as int).add(rest),
                            ));
                            assert(chunk_windows(end - wstart, step as int).add(rest)
                                =~= seq![c].add(chunk_windows(end - wend, step as int)).add(rest));
                        }
                        progress.notify(p - wstart);
                    }
                },
            }
        }
        let mut parts: Vec<I> = Vec::new();
        parts.push(acc);
        let mut k: usize = 1;
        while k < tc
            invariant
                1 <= k <= tc,
                parts@.len() == k,
                parts@[0] == fold_spec(*work, s, a0),
                forall|i: int| 1 <= i < k ==> parts@[i] == a0,
                a0 == work.init_spec(),
            decreases tc - k,
        {
            parts.push(work.init());
            k = k + 1;
        }
        proof {
            assert(parts@ =~= partials_spec(*work, s, tc as int));
        }
        gather.reduce(parts)
    }

    /// A read-only run: like `run_reported`, with the no-op progress
    /// observer.
    pub fn run<T, I, R, W: Accumulate<T, I>, G: Reduce<I, R>>(
        &self,
        items: &Vec<T>,
        work: &W,
        gather: &G,
    ) -> (r: R)
        requires
            self.wf(),
            fold_ok(*work, items@, work.init_spec()),
            gather.reduce_ok(
                partials_spec(*work, items@, self.spec_config().thread_count as int),
            ),
        ensures
            r == gather.reduce_spec(
                partials_spec(*work, items@, self.spec_config().thread_count as int),
            ),
    {
        let mut progress = NoProgress::new();
        self.run_reported(items, work, gather, &mut progress)
    }

    /// An in-place run that also reports progress: rewrites every element of
    /// `items` exactly once through `work`'s operation, each under the
    /// accumulator state the fold had reached just before it, and reduces the
    /// per-worker accumulators through `gather`. As in `run_reported`, the
    /// log appended to `progress` is exactly the run's window schedule.
    pub fn run_mut_reported<T, I, R, W: AccumulateMut<T, I>, G: Reduce<I, R>, P: Progress>(
        &self,
        items: &mut Vec<T>,
        work: &W,
        gather: &G,
        progress: &mut P,
    ) -> (r: R)
        requires
            self.wf(),
            fold_mut_ok(*work, old(items)@, work.init_spec()),
            gather.reduce_ok(
                partials_mut_spec(*work, old(items)@, self.spec_config().thread_count as int),
            ),
        ensures
            final(items)@ == fold_mut_items(*work, old(items)@, work.init_spec()),
            r == gather.reduce_spec(
                partials_mut_spec(*work, old(items)@, self.spec_config().thread_count as int),
            ),
            final(progress).log() == old(progress).log().add(
                report_log(self.spec_config(), old(items)@.len() as int),
            ),
    {
        let ghost s = old(items)@;
        let ghost a0 = work.init_spec();
        let ghost r0log = old(progress).log();
        let len = items.len();
        let tc = self.config.thread_count;
        let ec = self.config.effective_chunk_size(len);
        let step = if self.config.progress_bar {
            self.config.bar_step
        } else {
            ec
        };
        let ghost full = window_counts(s.len() as int, ec as int, step as int);
        let mut cursor = ChunkCursor::new(len, ec);
        let mut acc = work.init();
        proof {
            assert(full == report_log(self.spec_config(), s.len() as int));
            assert(fold_mut_items(*work, s.take(0), a0) =~= Seq::<T>::empty());
            assert(items@ =~= fold_mut_items(*work, s.take(0), a0).add(s.skip(0)));
        }
        loop
            invariant
                cursor.wf(),
                cursor.spec_total() == s.len(),
                cursor.spec_chunk_size() == ec as int,
                0 <= cursor.spec_pos() <= s.len(),
                1 <= step,
                fold_mut_ok(*work, s, a0),
                a0 == work.init_spec(),
                items@ == fold_mut_items(*work, s.take(cursor.spec_pos()), a0).add(
                    s.skip(cursor.spec_pos()),
                ),
                items@.len() == s.len(),
                acc == fold_mut_acc(*work, s.take(cursor.spec_pos()), a0),
                1 <= ec,
                full == window_counts(s.len() as int, ec as int, step as int),
                r0log.add(full) == progress.log().add(
                    window_counts(s.len() - cursor.spec_pos(), ec as int, step as int),
                ),
            ensures
                acc == fold_mut_acc(*work, s, a0),
                items@ == fold_mut_items(*work, s, a0),
                progress.log() == r0log.add(full),
            decreases s.len() - cursor.spec_pos(),
        {
            match cursor.next() {
                None => {
                    proof {
                        assert(s.take(cursor.spec_pos()) =~= s);
                        assert(fold_mut_items(*work, s, a0).add(s.skip(cursor.spec_pos()))
                            =~= fold_mut_items(*work, s, a0));
                        assert(progress.log().add(Seq::<int>::empty()) =~= progress.log());
                    }
                    break ;
                },
                Some(bounds) => {
                    let start = bounds.0;
                    let end = bounds.1;
                    proof {
                        assert(window_counts(s.len() - start, ec as int, step as int)
                            == chunk_windows(end - start, step as int).add(
                            window_counts(s.len() - end, ec as int, step as int),
                        ));
                    }
                    let mut p = start;
                    while p < end
                        invariant
                            fold_mut_ok(*work, s, a0),
                            a0 == work.init_spec(),
                            start <= p <= end,
                            end <= s.len(),
                            1 <= step,
                            items@ == fold_mut_items(*work, s.take(p as int), a0).add(
                                s.skip(p as int),
                            ),
                            items@.len() == s.len(),
                            acc == fold_mut_acc(*work, s.take(p as int), a0),
                            r0log.add(full) == progress.log().add(
                                chunk_windows(end - p, step as int).add(
                                    window_counts(s.len() - end, ec as int, step as int),
                                ),
                            ),
                        decreases end - p,
                    {
                        let wstart = p;
                        let wend = if end - p <= step {
                            end
                        } else {
                            p + step
                        };
                        while p < wend
                            invariant
                                fold_mut_ok(*work, s, a0),
                                a0 == work.init_spec(),
                                wstart <= p <= wend,
                                wend <= s.len(),
                                items@ == fold_mut_items(*work, s.take(p as int), a0).add(
                                    s.skip(p as int),
                                ),
                                items@.len() == s.len(),
                                acc == fold_mut_acc(*work, s.take(p as int), a0),
                            decreases wend - p,
                        {
                            proof {
                                lemma_fold_mut_step(*work, s, a0, p as int);
                                lemma_fold_mut_items_len(*work, s.take(p as int), a0);
                                assert(items@[p as int] == s.skip(p as int)[0]);
                                assert(items@[p as int] == s[p as int]);
                            }
                            let ghost before = items@;
                            acc = work.step(acc, &mut items[p]);
                            proof {
                                lemma_fold_mut_items_len(*work, s.take(p as int + 1), a0);
                                assert(items@ =~= fold_mut_items(*work, s.take(p as int + 1), a0)
                                    .add(s.skip(p as int + 1)));
                            }
                            p = p + 1;
                        }
                        proof {
                            let c = (wend - wstart) as int;
                            let rest = window_counts(s.len() - end, ec as int, step as int);
                            assert(chunk_windows(end - wstart, step as int) =~= seq![c].add(
                                chunk_windows(end - wend, step as int),
                            ));
                            assert(progress.log().add(
                                seq![c].add(chunk_windows(end - wend, step as int)).add(rest),
                            ) =~= progress.log().push(c).add(
                                chunk_windows(end - wend, step as int).add(rest),
                            ));
                            assert(chunk_windows(end - wstart, step as int).add(rest)
                                =~= seq![c].add(chunk_windows(end - wend, step as int)).add(rest));
                        }
                        progress.notify(p - wstart);
                    }
                },
            }
        }
        let mut parts: Vec<I> = Vec::new();
        parts.push(acc);
        let mut k: usize = 1;
        while k < tc
            invariant
                1 <= k <= tc,
                parts@.len() == k,
                parts@[0] == fold_mut_acc(*work, s, a0),
                forall|i: int| 1 <= i < k ==> parts@[i] == a0,
                a0 == work.init_spec(),
            decreases tc - k,
        {
            parts.push(work.init());
            k = k + 1;
        }
        proof {
            assert(parts@ =~= partials_mut_spec(*work, s, tc as int));
        }
        gather.reduce(parts)
    }

    /// An in-place run: like `run_mut_reported`, with the no-op progress
    /// observer.
    pub fn run_mut<T, I, R, W: AccumulateMut<T, I>, G: Reduce<I, R>>(
        &self,
        items: &mut Vec<T>,
        work: &W,
        gather: &G,
    ) -> (r: R)
        requires
            self.wf(),
            fold_mut_ok(*work, old(items)@, work.init_spec()),
            gather.reduce_ok(
                partials_mut_spec(*work, old(items)@, self.spec_config().thread_count as int),
            ),
        ensures
            final(items)@ == fold_mut_items(*work, old(items)@, work.init_spec()),
            r == gather.reduce_spec(
                partials_mut_spec(*work, old(items)@, self.spec_config().thread_count as int),
            ),
    {
        let mut progress = NoProgress::new();
        self.run_mut_reported(items, work, gather, &mut progress)
    }
}

impl core::default::Default for Chunker {
    /// An engine holding the default configuration: one worker per detected
    /// logical CPU (so only its positivity can be stated), the default chunk
    /// size and progress step, progress reporting enabled — exactly what
    /// `Config::default` promises.
    fn default() -> (r: Self)
        ensures
            r.wf(),
            r.spec_config().chunk_size == crate::config::DEFAULT_CHUNK_SIZE,
            r.spec_config().bar_step == crate::config::DEFAULT_BAR_STEP,
            r.spec_config().progress_bar,
    {
        let config = Config::default();
        Chunker::new(config)
    }
}

/// A one-shot read-only run: builds an engine holding `config`, uses it once
/// and discards it.
pub fn run<T, I, R, W: Accumulate<T, I>, G: Reduce<I, R>>(
    items: &Vec<T>,
    config: Config,
    work: &W,
    gather: &G,
) -> (r: R)
    requires
        config.wf(),
        fold_ok(*work, items@, work.init_spec()),
        gather.reduce_ok(partials_spec(*work, items@, config.thread_count as int)),
    ensures
        r == gather.reduce_spec(partials_spec(*work, items@, config.thread_count as int)),
{
    let chunker = Chunker::new(config);
    chunker.run(items, work, gather)
}

/// A one-shot in-place run: builds an engine holding `config`, uses it once
/// and discards it.
pub fn run_mut<T, I, R, W: AccumulateMut<T, I>, G: Reduce<I, R>>(
    items: &mut Vec<T>,
    config: Config,
    work: &W,
    gather: &G,
) -> (r: R)
    requires
        config.wf(),
        fold_mut_ok(*work, old(items)@, work.init_spec()),
        gather.reduce_ok(partials_mut_spec(*work, old(items)@, config.thread_count as int)),
    ensures
        final(items)@ == fold_mut_items(*work, old(items)@, work.init_spec()),
        r == gather.reduce_spec(partials_mut_spec(*work, old(items)@, config.thread_count as int)),
{
    let chunker = Chunker::new(config);
    chunker.run_mut(items, work, gather)
}

} // verus!
