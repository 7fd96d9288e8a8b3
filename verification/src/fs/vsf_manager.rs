use vstd::prelude::*;

verus! {

/// The file systems in use, each known by its address.
pub struct VfsManager {
    /// The addresses of the file systems, in the order they were mounted.
    pub fss: Vec<u64>,
}

impl VfsManager {
    /// A manager of no file system.
    pub fn new() -> (m: Self)
        ensures
            m.fss@ == Seq::<u64>::empty(),
    {
        VfsManager { fss: Vec::new() }
    }

    /// Adds the file system at `fs`.
    pub fn mount(&mut self, fs: u64)
        ensures
            final(self).fss@ == old(self).fss@.push(fs),
    {
        self.fss.push(fs);
    }

    /// Drops every occurrence of the file system at `fs`, the others kept in
    /// their order.
    pub fn unmount(&mut self, fs: u64)
        ensures
            final(self).fss@ == old(self).fss@.filter(|x: u64| x != fs),
    {
        let mut kept: Vec<u64> = Vec::new();
        let mut i: usize = 0;
        while i < self.fss.len()
            invariant
                self.fss@ == old(self).fss@,
                i <= self.fss@.len(),
                kept@ == self.fss@.subrange(0, i as int).filter(|x: u64| x != fs),
            decreases self.fss@.len() - i,
        {
            let x = self.fss[i];
            proof {
                let s = self.fss@.subrange(0, i as int + 1);
                assert(s.drop_last() =~= self.fss@.subrange(0, i as int));
                reveal(Seq::filter);
            }
            if x != fs {
                kept.push(x);
            }
            i = i + 1;
        }
        proof {
            assert(self.fss@.subrange(0, self.fss@.len() as int) =~= self.fss@);
        }
        self.fss = kept;
    }
}

} // verus!
