use vstd::prelude::*;
use crate::memory::addr::PhysAddr;

verus! {

/// A range of physical memory: `size` bytes from `start`.
#[derive(Clone, Copy, Debug)]
pub struct Region {
    start: PhysAddr,
    size: usize,
}

impl Region {
    /// Where the range starts.
    pub closed spec fn spec_start(&self) -> PhysAddr {
        self.start
    }

    /// How many bytes the range spans.
    pub closed spec fn spec_size(&self) -> usize {
        self.size
    }

    /// The range of `size` bytes from `start`.
    pub fn new(start: PhysAddr, size: usize) -> (r: Self)
        ensures
            r.spec_start() == start,
            r.spec_size() == size,
    {
        Self { start, size }
    }

    /// Where the range starts.
    pub fn start(&self) -> (s: PhysAddr)
        ensures
            s == self.spec_start(),
    {
        self.start
    }

    /// How many bytes the range spans.
    pub fn size(&self) -> (s: usize)
        ensures
            s == self.spec_size(),
    {
        self.size
    }
}

} // verus!
