use vstd::prelude::*;

verus! {

/// The partition of a sequence into consecutive chunks of length `c`, the
/// last possibly shorter. This is the mathematical model of what the chunk
/// cursor hands out over a whole run.
pub open spec fn chunk_split<T>(s: Seq<T>, c: int) -> Seq<Seq<T>>
    recommends
        1 <= c,
    decreases s.len(),
    when 1 <= c
{
    if s.len() == 0 {
        Seq::empty()
    } else if s.len() <= c {
        seq![s]
    } else {
        seq![s.take(c)].add(chunk_split(s.skip(c), c))
    }
}

/// Completeness and no duplication: concatenating, in yield order, the chunks
/// that the cursor produces over a sequence reconstructs that sequence exactly
/// — no element skipped, none repeated — and hence the elements seen across
/// all workers form, as a multiset, exactly the original sequence.
pub proof fn lemma_chunks_cover<T>(s: Seq<T>, c: int)
    requires
        1 <= c,
    ensures
        chunk_split(s, c).flatten() == s,
        chunk_split(s, c).flatten().to_multiset() == s.to_multiset(),
    decreases s.len(),
{
    if s.len() == 0 {
        assert(chunk_split(s, c).flatten() =~= s);
    } else if s.len() <= c {
        seq![s].lemma_flatten_one_element();
        assert(chunk_split(s, c).flatten() =~= s);
    } else {
        lemma_chunks_cover(s.skip(c), c);
        let cs = chunk_split(s, c);
        let rest = chunk_split(s.skip(c), c);
        assert(cs == seq![s.take(c)].add(rest));
        vstd::seq_lib::lemma_flatten_concat(seq![s.take(c)], rest);
        seq![s.take(c)].lemma_flatten_one_element();
        assert(cs.flatten() == s.take(c).add(rest.flatten()));
        assert(s.take(c).add(s.skip(c)) =~= s);
    }
}

/// Every chunk of the partition is non-empty and no longer than `c`.
pub proof fn lemma_chunks_sized<T>(s: Seq<T>, c: int)
    requires
        1 <= c,
    ensures
        forall|i: int|
            0 <= i < chunk_split(s, c).len() ==> 1 <= (#[trigger] chunk_split(s, c)[i]).len() <= c,
    decreases s.len(),
{
    if s.len() == 0 {
    } else if s.len() <= c {
    } else {
        lemma_chunks_sized(s.skip(c), c);
        assert forall|i: int| 0 <= i < chunk_split(s, c).len() implies 1 <= (#[trigger] chunk_split(
            s,
            c,
        )[i]).len() <= c by {
            if i > 0 {
                assert(chunk_split(s, c)[i] == chunk_split(s.skip(c), c)[i - 1]);
            }
        }
    }
}

/// Each chunk of the partition is exactly the sub-slice the cursor's yielded
/// bounds name: the `i`-th chunk runs from `i * c` up to `(i + 1) * c`, cut
/// short only by the end of the sequence.
pub proof fn lemma_chunk_bounds<T>(s: Seq<T>, c: int, i: int)
    requires
        1 <= c,
        0 <= i < chunk_split(s, c).len(),
    ensures
        chunk_split(s, c)[i] == s.subrange(
            i * c,
            if (i + 1) * c <= s.len() {
                (i + 1) * c
            } else {
                s.len() as int
            },
        ),
    decreases i,
{
    assert(0 <= i * c && i * c < (i + 1) * c) by (nonlinear_arith)
        requires
            1 <= c && 0 <= i,
    ;
    if i == 0 {
        assert(i * c == 0 && (i + 1) * c == c) by (nonlinear_arith)
            requires
                i == 0,
        ;
        if s.len() <= c {
            assert(chunk_split(s, c)[0] =~= s.subrange(0, s.len() as int));
        } else {
            assert(chunk_split(s, c)[0] =~= s.subrange(0, c));
        }
    } else {
        let t = s.skip(c);
        assert(s.len() > c);
        assert(chunk_split(s, c).len() == 1 + chunk_split(t, c).len());
        lemma_chunk_bounds(t, c, i - 1);
        lemma_chunks_count(t, c);
        assert((i - 1) * c < t.len()) by (nonlinear_arith)
            requires
                1 <= c,
                0 <= i - 1,
                i - 1 < (t.len() + c - 1) / c,
        ;
        assert(chunk_split(s, c)[i] == chunk_split(t, c)[i - 1]);
        assert((i - 1) * c == i * c - c && i * c == (i + 1) * c - c) by (nonlinear_arith);
        assert(i * c < s.len());
        if (i + 1) * c <= s.len() {
            assert(t.subrange(i * c - c, i * c) =~= s.subrange(i * c, (i + 1) * c));
        } else {
            assert(t.subrange(i * c - c, t.len() as int) =~= s.subrange(i * c, s.len() as int));
        }
    }
}

/// The partition is finite and exhausts after exactly the rounded-up
/// quotient of the length by the chunk size.
pub proof fn lemma_chunks_count<T>(s: Seq<T>, c: int)
    requires
        1 <= c,
    ensures
        chunk_split(s, c).len() == (s.len() + c - 1) / c,
    decreases s.len(),
{
    if s.len() == 0 {
        assert((c - 1) / c == 0) by (nonlinear_arith)
            requires
                1 <= c,
        ;
    } else if s.len() <= c {
        assert((s.len() + c - 1) / c == 1) by (nonlinear_arith)
            requires
                1 <= s.len() <= c,
        ;
    } else {
        lemma_chunks_count(s.skip(c), c);
        assert(s.skip(c).len() == s.len() - c);
        assert(1 + (s.len() - c + c - 1) / c == (s.len() + c - 1) / c) by (nonlinear_arith)
            requires
                1 <= c < s.len(),
        ;
    }
}

/// A cursor over a sequence of `total` elements that yields the bounds of
/// non-overlapping, contiguous chunks of at most `chunk_size` elements,
/// advancing monotonically until exhausted. Exhaustion is permanent: once
/// `next` has answered `None`, it answers `None` forever.
pub struct ChunkCursor {
    total: usize,
    chunk_size: usize,
    pos: usize,
}

impl ChunkCursor {
    /// A cursor is well formed when its chunk size is positive and its
    /// position has not run past the end.
    pub closed spec fn wf(self) -> bool {
        &&& 1 <= self.chunk_size
        &&& self.pos <= self.total
    }

    /// Number of elements the cursor ranges over.
    pub closed spec fn spec_total(self) -> int {
        self.total as int
    }

    /// The chunk size the cursor was built with.
    pub closed spec fn spec_chunk_size(self) -> int {
        self.chunk_size as int
    }

    /// Index of the first element not yet handed out.
    pub closed spec fn spec_pos(self) -> int {
        self.pos as int
    }

    /// A fresh cursor over `total` elements, starting at the beginning.
    pub fn new(total: usize, chunk_size: usize) -> (r: Self)
        requires
            1 <= chunk_size,
        ensures
            r.wf(),
            r.spec_total() == total,
            r.spec_chunk_size() == chunk_size,
            r.spec_pos() == 0,
    {
        ChunkCursor { total, chunk_size, pos: 0 }
    }

    /// Takes the next chunk's bounds, or answers `None` once the cursor is
    /// exhausted. A yielded chunk `[start, end)` begins exactly where the
    /// previous one ended and holds at least one and at most `chunk_size`
    /// elements; it is cut short only by the end of the sequence.
    pub fn next(&mut self) -> (r: Option<(usize, usize)>)
        requires
            old(self).wf(),
        ensures
            final(self).wf(),
            final(self).spec_total() == old(self).spec_total(),
            final(self).spec_chunk_size() == old(self).spec_chunk_size(),
            1 <= final(self).spec_chunk_size(),
            old(self).spec_pos() <= final(self).spec_pos() <= final(self).spec_total(),
            old(self).spec_pos() == old(self).spec_total() ==> {
                &&& r is None
                &&& final(self).spec_pos() == old(self).spec_pos()
            },
            old(self).spec_pos() < old(self).spec_total() ==> {
                &&& r is Some
                &&& r.unwrap().0 == old(self).spec_pos()
                &&& r.unwrap().1 == final(self).spec_pos()
                &&& final(self).spec_pos() == if old(self).spec_pos() + old(self).spec_chunk_size()
                    <= old(self).spec_total() {
                    old(self).spec_pos() + old(self).spec_chunk_size()
                } else {
                    old(self).spec_total()
                }
            },
    {
        if self.pos == self.total {
            None
        } else {
            let start = self.pos;
            let remaining = self.total - self.pos;
            let end = if remaining <= self.chunk_size {
                self.total
            } else {
                self.pos + self.chunk_size
            };
            self.pos = end;
            Some((start, end))
        }
    }
}

} // verus!
