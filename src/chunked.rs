use std::collections::VecDeque;
use vstd::prelude::*;

verus! {

/// Why a chunked iterator could not be made.
#[derive(Debug, PartialEq, Eq, Structural)]
pub enum ChunkError {
    /// A chunk size of zero was asked for.
    InvalidArgument,
}

/// The groups that `s` falls into for chunk size `n`: consecutive runs of `n`
/// items in the order they came, the last one holding what remains.
pub open spec fn chunks_of<R>(s: Seq<R>, n: nat) -> Seq<Seq<R>>
    decreases s.len(),
{
    if n == 0 || s.len() == 0 {
        Seq::empty()
    } else {
        let k = if s.len() < n { s.len() } else { n };
        seq![s.take(k as int)] + chunks_of(s.skip(k as int), n)
    }
}

/// A forward-only pass over a source of items that hands them out in groups
/// of a fixed size.
pub struct ChunkedIterator<R> {
    source: VecDeque<R>,
    size: usize,
}

impl<R> ChunkedIterator<R> {
    /// The items not yet handed out, in order.
    pub closed spec fn remaining(&self) -> Seq<R> {
        self.source@
    }

    /// The chunk size.
    pub closed spec fn chunk_size(&self) -> nat {
        self.size as nat
    }

    /// Every iterator holds a chunk size of at least one.
    pub closed spec fn wf(&self) -> bool {
        self.size > 0
    }

    /// The groups that the rest of the pass will hand out, in order.
    pub open spec fn pending(&self) -> Seq<Seq<R>> {
        chunks_of(self.remaining(), self.chunk_size())
    }

    /// Wraps `source` into groups of `size` items; a size of zero is refused.
    pub fn new(source: Vec<R>, size: usize) -> (r: Result<Self, ChunkError>)
        ensures
            size == 0 <==> r is Err,
            r matches Ok(it) ==> it.wf() && it.remaining() == source@ && it.chunk_size() == size,
    {
        if size == 0 {
            return Err(ChunkError::InvalidArgument);
        }
        let mut items = source;
        let mut queue: VecDeque<R> = VecDeque::new();
        while items.len() > 0
            invariant
                items@ + queue@ == source@,
            decreases items.len(),
        {
            let ghost before = items@;
            let item = items.pop().unwrap();
            queue.push_front(item);
            assert(items@ + queue@ =~= source@) by {
                assert(before =~= items@.push(item));
            }
        }
        assert(queue@ =~= source@);
        Ok(ChunkedIterator { source: queue, size })
    }

    /// Hands out the next group: `size` items, or fewer once the source runs
    /// out, and `None` when nothing is left.
    pub fn next(&mut self) -> (r: Option<Vec<R>>)
        requires
            old(self).wf(),
        ensures
            final(self).wf(),
            final(self).chunk_size() == old(self).chunk_size(),
            match r {
                None => old(self).pending().len() == 0 && final(self).remaining() == old(
                    self,
                ).remaining(),
                Some(c) => old(self).pending() == seq![c@] + final(self).pending(),
            },
    {
        let ghost start = self.source@;
        let ghost n = self.size as nat;
        if self.source.len() == 0 {
            return None;
        }
        let mut chunk: Vec<R> = Vec::new();
        while chunk.len() < self.size && self.source.len() > 0
            invariant
                self.size as nat == n,
                n > 0,
                chunk.len() <= n,
                chunk@ + self.source@ == start,
            decreases self.source@.len(),
        {
            let ghost before = self.source@;
            let item = self.source.pop_front().unwrap();
            chunk.push(item);
            assert(chunk@ + self.source@ =~= start) by {
                assert(before =~= seq![item] + self.source@);
            }
        }
        proof {
            let k = if start.len() < n { start.len() } else { n };
            assert(chunk@.len() == k);
            assert(chunk@ =~= start.take(k as int));
            assert(self.source@ =~= start.skip(k as int));
        }
        Some(chunk)
    }
}

/// Over a positive chunk size, the groups split the source without loss or
/// reordering: joined they give it back, each holds between one and `n`
/// items, all but the last exactly `n`, and an empty source gives none.
pub proof fn lemma_chunks_partition<R>(s: Seq<R>, n: nat)
    requires
        n > 0,
    ensures
        chunks_of(s, n).flatten() == s,
        forall|i: int|
            0 <= i < chunks_of(s, n).len() ==> 1 <= #[trigger] chunks_of(s, n)[i].len() <= n,
        forall|i: int| 0 <= i < chunks_of(s, n).len() - 1 ==> #[trigger] chunks_of(s, n)[i].len() == n,
        s.len() == 0 <==> chunks_of(s, n).len() == 0,
    decreases s.len(),
{
    if s.len() > 0 {
        let k = if s.len() < n { s.len() } else { n };
        let rest = s.skip(k as int);
        lemma_chunks_partition(rest, n);
        let c = chunks_of(s, n);
        assert(c.first() == s.take(k as int));
        assert(c.drop_first() =~= chunks_of(rest, n));
        assert(s.take(k as int) + rest =~= s);
        assert forall|i: int| 0 <= i < c.len() implies 1 <= #[trigger] c[i].len() <= n by {
            if i > 0 {
                assert(c[i] == chunks_of(rest, n)[i - 1]);
            }
        }
        assert forall|i: int| 0 <= i < c.len() - 1 implies #[trigger] c[i].len() == n by {
            if i > 0 {
                assert(c[i] == chunks_of(rest, n)[i - 1]);
            } else {
                assert(rest.len() > 0);
            }
        }
    }
}

} // verus!
