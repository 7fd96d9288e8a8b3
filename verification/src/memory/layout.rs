use vstd::prelude::*;
use vstd::arithmetic::power2::*;

verus! {

/// Whether `x` is a power of two.
pub open spec fn is_power_of_two(x: int) -> bool {
    exists|k: nat| pow2(k) == x
}

/// The size and the alignment of a block of memory that is asked for.
///
/// The alignment is a power of two, and the size rounded up to the alignment
/// does not exceed `isize::MAX`.
#[derive(Clone, Copy)]
pub struct Layout {
    size: usize,
    align: usize,
}

impl Layout {
    /// The size asked for, in bytes.
    pub closed spec fn spec_size(&self) -> usize {
        self.size
    }

    /// The alignment asked for, in bytes.
    pub closed spec fn spec_align(&self) -> usize {
        self.align
    }

    /// The conditions every layout meets.
    pub open spec fn wf(&self) -> bool {
        &&& is_power_of_two(self.spec_align() as int)
        &&& self.spec_size() + self.spec_align() - 1 <= isize::MAX
    }

    /// A layout of `size` bytes aligned to `align`, or `None` when `align` is not
    /// a power of two or the size rounded up to the alignment exceeds `isize::MAX`.
    pub fn from_size_align(size: usize, align: usize) -> (layout: Option<Layout>)
        ensures
            layout is Some <==> (is_power_of_two(align as int) && size + align - 1
                <= isize::MAX),
            layout matches Some(l) ==> l.wf() && l.spec_size() == size && l.spec_align()
                == align,
    {
        if align == 0 {
            proof {
                if is_power_of_two(align as int) {
                    let k = choose|k: nat| pow2(k) == align as int;
                    lemma_pow2_pos(k);
                }
            }
            return None;
        }
        if align - 1 > isize::MAX as usize {
            return None;
        }
        let pow = power_of_two_check(align);
        if !pow || size > isize::MAX as usize - (align - 1) {
            return None;
        }
        Some(Layout { size, align })
    }

    /// The size asked for, in bytes.
    pub fn size(&self) -> (s: usize)
        ensures
            s == self.spec_size(),
    {
        self.size
    }

    /// The alignment asked for, in bytes.
    pub fn align(&self) -> (a: usize)
        ensures
            a == self.spec_align(),
    {
        self.align
    }
}

/// Whether `x` is a power of two, for a nonzero `x`.
pub fn power_of_two_check(x: usize) -> (b: bool)
    requires
        x != 0,
    ensures
        b == is_power_of_two(x as int),
{
    let mut p: usize = 1;
    let mut k: usize = 0;
    proof {
        lemma2_to64();
    }
    while p < x
        invariant
            p as nat == pow2(k as nat),
            1 <= p,
            k <= p,
            forall|j: nat| j < k ==> pow2(j) < x,
        decreases usize::MAX - p,
    {
        proof {
            lemma_pow2_unfold((k + 1) as nat);
        }
        if p > usize::MAX / 2 {
            proof {
                assert forall|j: nat| pow2(j) != x as int by {
                    if j > k {
                        if j > k + 1 {
                            lemma_pow2_strictly_increases((k + 1) as nat, j);
                        }
                    }
                }
            }
            return false;
        }
        p = p * 2;
        k = k + 1;
    }
    proof {
        if p != x {
            assert forall|j: nat| pow2(j) != x as int by {
                if j > k {
                    lemma_pow2_strictly_increases(k as nat, j);
                }
            }
        }
    }
    p == x
}

} // verus!
