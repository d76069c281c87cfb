//! Physical frame allocator: hands out frame numbers from a fixed range and
//! keeps a stack of recycled frames, as a kernel's stack allocator does.

use vstd::prelude::*;
use crate::config::PAGE_SIZE;

verus! {

/// Allocates physical page frames numbered in `[next, end)`, preferring
/// frames from the `recycled` stack. The frame range is bounded so that any
/// byte address inside a frame fits in a machine word.
pub struct FrameAllocator {
    pub next: usize,
    pub end: usize,
    pub recycled: Vec<usize>,
}

impl FrameAllocator {
    pub open spec fn wf(self) -> bool {
        &&& self.next <= self.end
        &&& self.end <= usize::MAX as int / PAGE_SIZE as int
        &&& forall|k: int|
            0 <= k < self.recycled@.len() ==> (#[trigger] self.recycled@[k]) < self.end
    }

    /// Number of frames still available.
    pub open spec fn available(self) -> int {
        self.recycled@.len() + self.end - self.next
    }

    pub fn new(start: usize, end: usize) -> (a: FrameAllocator)
        requires
            start <= end,
            end <= usize::MAX / PAGE_SIZE,
        ensures
            a.wf(),
            a.next == start,
            a.end == end,
            a.recycled@ == Seq::<usize>::empty(),
    {
        FrameAllocator { next: start, end, recycled: Vec::new() }
    }

    /// Hand out one frame, reusing a recycled one first.
    pub fn allocate(&mut self) -> (r: Option<usize>)
        requires
            old(self).wf(),
        ensures
            final(self).wf(),
            final(self).end == old(self).end,
            r.is_none() <==> old(self).available() == 0,
            r.is_none() ==> *final(self) == *old(self),
            r matches Some(f) ==> {
                &&& f < old(self).end
                &&& final(self).available() == old(self).available() - 1
                &&& {
                    ||| (old(self).recycled@.len() > 0 && f == old(self).recycled@.last()
                        && final(self).recycled@ == old(self).recycled@.drop_last()
                        && final(self).next == old(self).next)
                    ||| (old(self).recycled@.len() == 0 && f == old(self).next
                        && final(self).next == old(self).next + 1
                        && final(self).recycled@ == old(self).recycled@)
                }
            },
    {
        if self.recycled.len() > 0 {
            let f = self.recycled.pop().unwrap();
            Some(f)
        } else if self.next < self.end {
            let f = self.next;
            self.next = self.next + 1;
            Some(f)
        } else {
            None
        }
    }

    /// Take a frame back; it becomes available again.
    pub fn dealloc(&mut self, f: usize)
        requires
            old(self).wf(),
            f < old(self).end,
        ensures
            final(self).wf(),
            final(self).next == old(self).next,
            final(self).end == old(self).end,
            final(self).recycled@ == old(self).recycled@.push(f),
            final(self).available() == old(self).available() + 1,
    {
        self.recycled.push(f);
    }
}

} // verus!
