//! Range walker: drives the ingestion across an inclusive block-number
//! range, yielding block numbers one at a time, in ascending order, so a
//! caller fetches block N+1 only after block N has terminated.

use vstd::prelude::*;

verus! {

/// The block numbers an inclusive range visits, in order. A range whose
/// start exceeds its end is a valid no-op and visits nothing.
pub open spec fn range_seq(start: u64, end: u64) -> Seq<u64> {
    if start > end {
        Seq::empty()
    } else {
        Seq::new((end - start + 1) as nat, |i: int| (start + i) as u64)
    }
}

/// Law: for all `start <= end`, the walk visits block numbers in strictly
/// ascending order with no repeats and no gaps (each visited number is
/// exactly one more than the one before it), starting at `start`.
pub proof fn lemma_walk_ascending_no_gaps(start: u64, end: u64)
    requires
        start <= end,
    ensures
        range_seq(start, end).len() == end - start + 1,
        forall|i: int| 0 <= i < range_seq(start, end).len() ==> #[trigger] range_seq(start, end)[i]
            == start + i,
        forall|i: int, j: int|
            0 <= i < j < range_seq(start, end).len() ==> range_seq(start, end)[i] < range_seq(
                start,
                end,
            )[j],
        forall|i: int|
            0 < i < range_seq(start, end).len() ==> #[trigger] range_seq(start, end)[i] == range_seq(
                start,
                end,
            )[i - 1] + 1,
{
}

/// Law: for `start > end`, the walk visits zero blocks; the empty range is
/// not an error.
pub proof fn lemma_walk_empty_range(start: u64, end: u64)
    requires
        start > end,
    ensures
        range_seq(start, end).len() == 0,
{
}

/// Walks an inclusive block-number range lazily: each call of `next` yields
/// the next number, so a caller can stop after any block and resume a fresh
/// walk from the number after the last one processed.
pub struct RangeWalker {
    cur: u64,
    end: u64,
    exhausted: bool,
}

impl RangeWalker {
    /// The block numbers this walker has yet to yield.
    pub closed spec fn remaining(&self) -> Seq<u64> {
        if self.exhausted {
            Seq::empty()
        } else {
            range_seq(self.cur, self.end)
        }
    }

    pub closed spec fn wf(&self) -> bool {
        !self.exhausted ==> self.cur <= self.end
    }

    pub fn new(start: u64, end: u64) -> (r: RangeWalker)
        ensures
            r.wf(),
            r.remaining() == range_seq(start, end),
    {
        let r = RangeWalker { cur: start, end, exhausted: start > end };
        proof {
            if start > end {
                assert(r.remaining() =~= range_seq(start, end));
            }
        }
        r
    }

    /// The next block number the walk will visit, without advancing.
    pub fn peek(&self) -> (r: Option<u64>)
        requires
            self.wf(),
        ensures
            r is Some <==> self.remaining().len() > 0,
            r is Some ==> r->Some_0 == self.remaining()[0],
    {
        if self.exhausted {
            None
        } else {
            Some(self.cur)
        }
    }

    /// Yields the next block number of the range, or nothing once the range
    /// is exhausted.
    pub fn next(&mut self) -> (r: Option<u64>)
        requires
            old(self).wf(),
        ensures
            final(self).wf(),
            old(self).remaining().len() == 0 ==> r is None && final(self).remaining()
                == old(self).remaining(),
            old(self).remaining().len() > 0 ==> r == Some(old(self).remaining()[0])
                && final(self).remaining() == old(self).remaining().drop_first(),
    {
        if self.exhausted {
            return None;
        }
        let n = self.cur;
        if self.cur == self.end {
            self.exhausted = true;
            proof {
                assert(self.remaining() =~= old(self).remaining().drop_first());
            }
        } else {
            self.cur = self.cur + 1;
            proof {
                assert(self.remaining() =~= old(self).remaining().drop_first());
            }
        }
        Some(n)
    }
}

} // verus!
