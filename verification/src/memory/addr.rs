use vstd::prelude::*;

verus! {

/// Where the heap starts in virtual memory (1 TiB); physical memory is seen
/// at this offset.
pub const HEAP_START: u64 = 0x0000100000000000;

/// A physical memory address.
#[derive(Clone, Copy, PartialEq, Eq, Structural, Debug)]
pub struct PhysAddr(pub u64);

/// A virtual memory address.
#[derive(Clone, Copy, PartialEq, Eq, Structural, Debug)]
pub struct VirtAddr(pub u64);

/// Conversion of an address-like value to a physical address.
pub trait ToPhysAddr {
    /// The physical address with the same numeric value.
    fn to_phys_addr(&self) -> PhysAddr;
}

/// Conversion of an address-like value to a virtual address.
pub trait ToVirtAddr {
    /// The virtual address with the same numeric value.
    fn to_virt_addr(&self) -> VirtAddr;
}

impl ToPhysAddr for VirtAddr {
    fn to_phys_addr(&self) -> (p: PhysAddr)
        ensures
            p.0 == self.0,
    {
        PhysAddr(self.0)
    }
}

impl ToPhysAddr for u64 {
    fn to_phys_addr(&self) -> (p: PhysAddr)
        ensures
            p.0 == *self,
    {
        PhysAddr(*self)
    }
}

impl ToVirtAddr for u64 {
    fn to_virt_addr(&self) -> (v: VirtAddr)
        ensures
            v.0 == *self,
    {
        VirtAddr(*self)
    }
}

impl PhysAddr {
    /// The virtual address at which this physical address is seen: the
    /// address plus [`HEAP_START`].
    pub fn to_virt_addr(self) -> (v: VirtAddr)
        requires
            self.0 + HEAP_START <= u64::MAX,
        ensures
            v.0 == self.0 + HEAP_START,
    {
        VirtAddr(self.0 + HEAP_START)
    }

    /// The address `rhs` bytes further.
    pub fn offset(self, rhs: u64) -> (p: PhysAddr)
        requires
            self.0 + rhs <= u64::MAX,
        ensures
            p.0 == self.0 + rhs,
    {
        PhysAddr(self.0 + rhs)
    }
}

impl VirtAddr {
    /// The address `rhs` bytes further.
    pub fn offset(self, rhs: u64) -> (v: VirtAddr)
        requires
            self.0 + rhs <= u64::MAX,
        ensures
            v.0 == self.0 + rhs,
    {
        VirtAddr(self.0 + rhs)
    }
}

impl From<u64> for VirtAddr {
    fn from(addr: u64) -> (v: VirtAddr) {
        VirtAddr(addr)
    }
}

impl vstd::std_specs::convert::FromSpecImpl<u64> for VirtAddr {
    open spec fn obeys_from_spec() -> bool {
        true
    }

    open spec fn from_spec(addr: u64) -> VirtAddr {
        VirtAddr(addr)
    }
}

} // verus!
