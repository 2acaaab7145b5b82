//! Collects samples of any size of run into blocks of one size.

use std::collections::VecDeque;
use vstd::prelude::*;

verus! {

/// Number of blocks that are kept at most.
pub const HIGH_WATER_BLOCKS: usize = 16;

/// The last `n` items of a sequence, or all of a shorter one.
pub open spec fn last_of<T>(s: Seq<T>, n: int) -> Seq<T> {
    if s.len() <= n {
        s
    } else {
        s.skip(s.len() - n)
    }
}

/// A queue of samples that are taken out in blocks.
pub struct IqAccumulator<T: Copy> {
    buffer: VecDeque<T>,
    block_size: usize,
}

impl<T: Copy> IqAccumulator<T> {
    /// The samples that wait, oldest first.
    pub closed spec fn waiting(&self) -> Seq<T> {
        self.buffer@
    }

    /// Number of samples in a block.
    pub closed spec fn block_len(&self) -> nat {
        self.block_size as nat
    }

    /// A block holds something, and the most that is kept can be counted.
    pub open spec fn wf(&self) -> bool {
        &&& 0 < self.block_len()
        &&& self.block_len() * HIGH_WATER_BLOCKS <= usize::MAX
    }

    /// An empty queue with blocks of `block_size` samples.
    pub fn new(block_size: usize) -> (a: Self)
        requires
            0 < block_size,
            block_size * HIGH_WATER_BLOCKS <= usize::MAX,
        ensures
            a.wf(),
            a.block_len() == block_size,
            a.waiting() == Seq::<T>::empty(),
    {
        IqAccumulator { buffer: VecDeque::with_capacity(block_size * 4), block_size }
    }

    /// Changes the size of a block and drops what waits.
    pub fn set_block_size(&mut self, block_size: usize)
        requires
            0 < block_size,
            block_size * HIGH_WATER_BLOCKS <= usize::MAX,
        ensures
            final(self).wf(),
            final(self).block_len() == block_size,
            final(self).waiting() == Seq::<T>::empty(),
    {
        self.block_size = block_size;
        self.buffer.clear();
    }

    /// Appends samples. Beyond the high-water mark the oldest are dropped.
    pub fn push(&mut self, samples: &[T])
        requires
            old(self).wf(),
        ensures
            final(self).wf(),
            final(self).block_len() == old(self).block_len(),
            final(self).waiting() == last_of(
                old(self).waiting() + samples@,
                old(self).block_len() * HIGH_WATER_BLOCKS,
            ),
    {
        let ghost before = self.buffer@;
        let ghost size = self.block_size;
        let mut i: usize = 0;
        while i < samples.len()
            invariant
                i <= samples@.len(),
                self.block_size == size,
                self.buffer@ == before + samples@.take(i as int),
            decreases samples@.len() - i,
        {
            self.buffer.push_back(samples[i]);
            i = i + 1;
            assert(self.buffer@ =~= before + samples@.take(i as int));
        }
        assert(samples@.take(samples@.len() as int) == samples@);
        let ghost all = before + samples@;
        let high_water: usize = self.block_size * HIGH_WATER_BLOCKS;
        while self.buffer.len() > high_water
            invariant
                self.block_size == size,
                high_water <= self.buffer@.len() <= all.len() || self.buffer@ == all,
                self.buffer@.len() <= all.len(),
                self.buffer@ == all.skip(all.len() - self.buffer@.len()),
            decreases self.buffer@.len(),
        {
            let ghost rest = self.buffer@;
            let _ = self.buffer.pop_front();
            assert(self.buffer@ =~= all.skip(all.len() - self.buffer@.len()));
        }
        assert(all.skip(0) == all);
    }

    /// Takes the next block out into `out`, if there is one.
    pub fn next_block(&mut self, out: &mut [T]) -> (r: bool)
        requires
            old(self).wf(),
            old(out)@.len() >= old(self).block_len(),
        ensures
            r == (old(self).waiting().len() >= old(self).block_len()),
            !r ==> *final(self) == *old(self) && final(out)@ == old(out)@,
            r ==> final(out)@ == old(self).waiting().take(old(self).block_len() as int) + old(
                out,
            )@.skip(old(self).block_len() as int),
            r ==> final(self).waiting() == old(self).waiting().skip(
                old(self).block_len() as int,
            ),
            final(self).wf(),
            final(self).block_len() == old(self).block_len(),
    {
        if self.buffer.len() < self.block_size {
            return false;
        }
        let ghost all = self.buffer@;
        let ghost target = out@;
        let ghost size = self.block_size;
        let mut i: usize = 0;
        while i < self.block_size
            invariant
                i <= self.block_size,
                self.block_size == size,
                size <= all.len(),
                size <= target.len(),
                self.buffer@ == all.skip(i as int),
                out@ == all.take(i as int) + target.skip(i as int),
            decreases self.block_size - i,
        {
            match self.buffer.pop_front() {
                Some(s) => {
                    out[i] = s;
                },
                None => {},
            }
            i = i + 1;
            assert(self.buffer@ =~= all.skip(i as int));
            assert(out@ =~= all.take(i as int) + target.skip(i as int));
        }
        true
    }

    /// Drops what waits.
    pub fn clear(&mut self)
        ensures
            final(self).waiting() == Seq::<T>::empty(),
            final(self).block_len() == old(self).block_len(),
    {
        self.buffer.clear();
    }

    /// Number of samples that wait.
    pub fn len(&self) -> (n: usize)
        ensures
            n == self.waiting().len(),
    {
        self.buffer.len()
    }

    /// Whether no sample waits.
    pub fn is_empty(&self) -> (r: bool)
        ensures
            r == (self.waiting().len() == 0),
    {
        self.buffer.len() == 0
    }
}

} // verus!
