//! The streaming copier's bookkeeping: how many bytes to ask for on each read
//! and what a read's outcome means, for moving exactly N bytes from one
//! stream to another through a bounded scratch buffer.

use vstd::prelude::*;

verus! {

/// Progress of one exact-length copy.
pub struct CopyProgress {
    /// The count the copy started with.
    pub total: usize,
    /// Bytes still to move.
    pub remaining: usize,
}

impl CopyProgress {
    pub open spec fn wf(&self) -> bool {
        self.remaining <= self.total
    }

    /// Bytes moved so far.
    pub open spec fn copied(&self) -> nat {
        (self.total - self.remaining) as nat
    }

    /// Starts a copy of `count` bytes.
    pub fn new(count: usize) -> (r: CopyProgress)
        ensures
            r.wf(),
            r.total == count,
            r.remaining == count,
    {
        CopyProgress { total: count, remaining: count }
    }

    /// Whether every byte has been moved.
    pub fn is_done(&self) -> (r: bool)
        ensures
            r == (self.remaining == 0),
    {
        self.remaining == 0
    }

    /// How many bytes the next read may ask for: never more than is left,
    /// never more than the scratch buffer holds.
    pub fn next_read_len(&self, scratch_len: usize) -> (r: usize)
        ensures
            r == if self.remaining < scratch_len {
                self.remaining
            } else {
                scratch_len
            },
    {
        get_buf_range(self.remaining, scratch_len)
    }

    /// Records a read of `amount` bytes, which the caller then writes out. A
    /// read of zero bytes before the end is an unexpected end of stream: the
    /// error carries the count still missing.
    pub fn record_read(&mut self, amount: usize) -> (r: Result<(), usize>)
        requires
            old(self).wf(),
            amount <= old(self).remaining,
        ensures
            final(self).wf(),
            final(self).total == old(self).total,
            amount == 0 ==> r == Err::<(), usize>(old(self).remaining) && *final(self) == *old(self),
            amount > 0 ==> r is Ok && final(self).remaining == old(self).remaining - amount,
    {
        if amount == 0 {
            return Err(self.remaining);
        }
        self.remaining = self.remaining - amount;
        Ok(())
    }
}

/// The smaller of a count still to move and a buffer's length.
pub fn get_buf_range(remaining: usize, max: usize) -> (r: usize)
    ensures
        r == if remaining < max {
            remaining
        } else {
            max
        },
{
    if remaining > max {
        max
    } else {
        remaining
    }
}

} // verus!
