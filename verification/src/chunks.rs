//! Splitting a range of items into evenly sized, contiguous chunks.

use vstd::prelude::*;

verus! {

/// The number of items that every chunk gets at least.
pub open spec fn base_size(total: nat, n: nat) -> nat {
    total / n
}

/// The number of leading chunks that get one item more than `base_size`.
pub open spec fn extra_count(total: nat, n: nat) -> nat {
    total % n
}

/// Where chunk `i` starts, which is also where chunk `i - 1` ends, when
/// `total` items are split into `n` chunks.
#[verifier::opaque]
pub open spec fn chunk_bound(total: nat, n: nat, i: nat) -> nat {
    i * base_size(total, n) + if i < extra_count(total, n) {
        i
    } else {
        extra_count(total, n)
    }
}

/// How many (non-empty) chunks are handed out: `n`, or fewer when there
/// are fewer items than chunks.
pub open spec fn chunk_count(total: nat, n: nat) -> nat {
    if total < n {
        total
    } else {
        n
    }
}

/// The size of chunk `i`.
pub open spec fn chunk_size(total: nat, n: nat, i: nat) -> nat {
    base_size(total, n) + if i < extra_count(total, n) {
        1nat
    } else {
        0nat
    }
}

/// Each chunk ends where the next one starts, and is `chunk_size` long.
proof fn lemma_bound_step(total: nat, n: nat, i: nat)
    requires
        n > 0,
    ensures
        chunk_bound(total, n, i + 1) == chunk_bound(total, n, i) + chunk_size(total, n, i),
{
    reveal(chunk_bound);
    let b = base_size(total, n);
    assert((i + 1) * b == i * b + b) by (nonlinear_arith);
}

/// The bounds stay within the items, and only the bound after the last
/// chunk reaches the end.
proof fn lemma_bound_range(total: nat, n: nat, i: nat)
    requires
        n > 0,
        i <= chunk_count(total, n),
    ensures
        chunk_bound(total, n, i) <= total,
        i < chunk_count(total, n) ==> chunk_bound(total, n, i) < total,
        i == chunk_count(total, n) ==> chunk_bound(total, n, i) == total,
{
    reveal(chunk_bound);
    let b = base_size(total, n);
    let e = extra_count(total, n);
    assert(total == n * b + e && e < n) by (nonlinear_arith)
        requires
            n > 0,
            b == total / n,
            e == total % n,
    ;
    if total < n {
        assert(b == 0) by (nonlinear_arith)
            requires
                total < n,
                b == total / n,
        ;
        assert(i * b == 0 && n * b == 0) by (nonlinear_arith)
            requires
                b == 0,
        ;
    } else {
        assert(i * b <= n * b) by (nonlinear_arith)
            requires
                i <= n,
        ;
        if i < n {
            assert(i * b + b <= n * b) by (nonlinear_arith)
                requires
                    i < n,
            ;
            assert(b >= 1) by (nonlinear_arith)
                requires
                    total >= n,
                    n > 0,
                    b == total / n,
            ;
        }
    }
}

/// Splitting `total` items into `n` chunks yields `chunk_count(total, n)`
/// chunks (`n`, or `total` when there are fewer items than chunks) that
/// cover the items exactly: the first starts at 0, the last ends at
/// `total`, each starts where the previous one ends, none is empty, and
/// their sizes are `total / n` or `total / n + 1`, never growing from one
/// chunk to a later one.
pub proof fn lemma_chunks_partition(total: nat, n: nat)
    requires
        n > 0,
    ensures
        chunk_bound(total, n, 0) == 0,
        chunk_bound(total, n, chunk_count(total, n)) == total,
        forall|i: nat| i <= chunk_count(total, n) ==> #[trigger] chunk_bound(total, n, i) <= total,
        forall|i: nat|
            i < chunk_count(total, n) ==> {
                &&& chunk_bound(total, n, i + 1) == chunk_bound(total, n, i) + #[trigger] chunk_size(
                    total,
                    n,
                    i,
                )
                &&& chunk_size(total, n, i) > 0
            },
        forall|i: nat, j: nat|
            i <= j < chunk_count(total, n) ==> #[trigger] chunk_size(total, n, j) <= #[trigger] chunk_size(
                total,
                n,
                i,
            ) <= chunk_size(total, n, j) + 1,
{
    reveal(chunk_bound);
    lemma_bound_range(total, n, chunk_count(total, n));
    assert forall|i: nat| i <= chunk_count(total, n) implies #[trigger] chunk_bound(total, n, i)
        <= total by {
        lemma_bound_range(total, n, i);
    }
    assert forall|i: nat| i < chunk_count(total, n) implies {
        &&& chunk_bound(total, n, i + 1) == chunk_bound(total, n, i) + #[trigger] chunk_size(
            total,
            n,
            i,
        )
        &&& chunk_size(total, n, i) > 0
    } by {
        lemma_bound_step(total, n, i);
        if total >= n {
            assert(total / n >= 1) by (nonlinear_arith)
                requires
                    total >= n,
                    n > 0,
            ;
        } else {
            assert(total % n == total) by (nonlinear_arith)
                requires
                    total < n,
                    n > 0,
            ;
        }
    }
}

/// Splits `total_items` items into `num_chunks` contiguous chunks whose
/// sizes differ by at most one, the larger ones first.
pub struct ChunkSplitter {
    total_items: usize,
    current_position: usize,
    current_chunk_index: usize,
    base_chunk_size: usize,
    extra_items: usize,
    num_chunks: Ghost<nat>,
}

impl ChunkSplitter {
    #[verifier::type_invariant]
    spec fn inv(self) -> bool {
        let n = self.num_chunks@;
        let total = self.total_items as nat;
        &&& 0 < n <= usize::MAX
        &&& self.base_chunk_size == base_size(total, n)
        &&& self.extra_items == extra_count(total, n)
        &&& self.current_chunk_index <= chunk_count(total, n)
        &&& self.current_position == chunk_bound(total, n, self.current_chunk_index as nat)
    }

    /// The number of items being split.
    pub closed spec fn total(self) -> nat {
        self.total_items as nat
    }

    /// The number of chunks asked for.
    pub closed spec fn chunks(self) -> nat {
        self.num_chunks@
    }

    /// The index of the chunk that the next call of `next` hands out.
    pub closed spec fn index(self) -> nat {
        self.current_chunk_index as nat
    }

    /// Where the next chunk starts: every item before it has been handed out.
    pub closed spec fn position(self) -> nat {
        self.current_position as nat
    }

    /// The splitter's state follows the closed form: it is at chunk
    /// `index()`, no further than the last chunk, and every item before
    /// `chunk_bound(total(), chunks(), index())` has been handed out.
    pub open spec fn placed(self) -> bool {
        &&& self.chunks() > 0
        &&& self.index() <= chunk_count(self.total(), self.chunks())
        &&& self.position() == chunk_bound(self.total(), self.chunks(), self.index())
        &&& self.position() <= self.total()
    }

    /// Creates a splitter that divides `total_items` into `num_chunks` chunks.
    pub fn new(total_items: usize, num_chunks: usize) -> (s: Self)
        requires
            num_chunks > 0,
        ensures
            s.total() == total_items,
            s.chunks() == num_chunks,
            s.index() == 0,
            s.placed(),
    {
        proof {
            reveal(chunk_bound);
            lemma_bound_range(total_items as nat, num_chunks as nat, 0);
        }
        ChunkSplitter {
            total_items,
            current_position: 0,
            current_chunk_index: 0,
            base_chunk_size: total_items / num_chunks,
            extra_items: total_items % num_chunks,
            num_chunks: Ghost(num_chunks as nat),
        }
    }

    /// Hands out the next chunk as `(start, end)`, or `None` once every item
    /// has been handed out; after that it keeps answering `None`.
    pub fn next(&mut self) -> (r: Option<(usize, usize)>)
        ensures
            final(self).total() == old(self).total(),
            final(self).chunks() == old(self).chunks(),
            final(self).placed(),
            old(self).index() < chunk_count(old(self).total(), old(self).chunks()) ==> {
                &&& r == Some(
                    (
                        chunk_bound(old(self).total(), old(self).chunks(), old(self).index())
                            as usize,
                        chunk_bound(old(self).total(), old(self).chunks(), old(self).index() + 1)
                            as usize,
                    ),
                )
                &&& final(self).index() == old(self).index() + 1
            },
            old(self).index() >= chunk_count(old(self).total(), old(self).chunks()) ==> {
                &&& r is None
                &&& final(self).index() == old(self).index()
            },
    {
        proof {
            use_type_invariant(&*self);
            lemma_bound_range(self.total(), self.chunks(), self.index());
        }
        let start = self.current_position;
        if start == self.total_items {
            proof {
                lemma_bound_range(self.total(), self.chunks(), self.index());
            }
            return None;
        }
        proof {
            lemma_bound_step(self.total(), self.chunks(), self.index());
            lemma_bound_range(self.total(), self.chunks(), self.index() + 1);
        }
        let bump: usize = if self.current_chunk_index < self.extra_items {
            1
        } else {
            0
        };
        let end = start + self.base_chunk_size + bump;
        *self = ChunkSplitter {
            total_items: self.total_items,
            current_position: end,
            current_chunk_index: self.current_chunk_index + 1,
            base_chunk_size: self.base_chunk_size,
            extra_items: self.extra_items,
            num_chunks: self.num_chunks,
        };
        proof {
            lemma_bound_range(self.total(), self.chunks(), self.index());
        }
        Some((start, end))
    }
}

} // verus!
