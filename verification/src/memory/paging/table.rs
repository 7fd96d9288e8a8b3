use vstd::prelude::*;
use crate::memory::addr::VirtAddr;

verus! {

/// The page is present in memory.
pub const PRESENT: u64 = 0x1;
/// The page may be written.
pub const WRITABLE: u64 = 0x2;
/// The page may be used from user mode.
pub const USER_ACCESSIBLE: u64 = 0x4;
/// Writes go through the cache.
pub const WRITE_THROUGH: u64 = 0x8;
/// The page is not cached.
pub const CACHE_DISABLE: u64 = 0x10;
/// The page was read.
pub const ACCESSED: u64 = 0x20;
/// The page was written.
pub const DIRTY: u64 = 0x40;
/// The entry maps a huge page.
pub const HUGE_PAGE: u64 = 0x80;
/// The mapping is kept in the TLB across address space switches.
pub const GLOBAL: u64 = 0x100;
/// Code may not run from the page.
pub const NO_EXECUTE: u64 = 0x8000_0000_0000_0000;

/// Every flag bit of a page table entry.
pub const ALL_FLAGS: u64 = 0x8000_0000_0000_01FF;

/// A set of flags of a page table entry.
#[derive(Debug, Clone, Copy, PartialEq, Eq, Structural)]
pub struct PageEntryFlags {
    bits: u64,
}

impl PageEntryFlags {
    /// The flag bits.
    pub closed spec fn spec_bits(&self) -> u64 {
        self.bits
    }

    /// A set of flags holds flag bits only.
    #[verifier::type_invariant]
    closed spec fn flag_bits_only(self) -> bool {
        self.bits & ALL_FLAGS == self.bits
    }

    /// The flags of `bits`, with every bit that is not a flag dropped.
    pub fn from_bits_truncate(bits: u64) -> (f: Self)
        ensures
            f.spec_bits() == bits & ALL_FLAGS,
    {
        proof {
            lemma_entry_bits(bits, 0, 0, 0, 0);
        }
        PageEntryFlags { bits: bits & ALL_FLAGS }
    }

    /// The flag bits.
    pub fn bits(&self) -> (b: u64)
        ensures
            b == self.spec_bits(),
            b & ALL_FLAGS == b,
    {
        proof {
            use_type_invariant(self);
        }
        self.bits
    }

    /// Whether every flag of `other` is among these.
    pub fn contains(&self, other: PageEntryFlags) -> (b: bool)
        ensures
            b == (self.spec_bits() & other.spec_bits() == other.spec_bits()),
    {
        self.bits & other.bits == other.bits
    }

    /// The flags of both sets.
    pub fn union(&self, other: PageEntryFlags) -> (f: PageEntryFlags)
        ensures
            f.spec_bits() == self.spec_bits() | other.spec_bits(),
    {
        proof {
            use_type_invariant(self);
            use_type_invariant(&other);
            lemma_entry_bits(0, self.bits, other.bits, 0, 0);
        }
        PageEntryFlags { bits: self.bits | other.bits }
    }
}

/// The level of a page table in the four-level hierarchy of x86_64.
#[derive(Debug, Clone, Copy, PartialEq, Eq, Structural)]
pub enum TableLevel {
    /// The top table: page map level 4.
    PML4,
    /// The page directory pointer table.
    PDP,
    /// The page directory.
    PD,
    /// The page table, whose entries map pages.
    PT,
}

/// The lowest bit of the part of a virtual address that indexes a table of
/// level `level`.
pub open spec fn level_shift(level: TableLevel) -> u64 {
    match level {
        TableLevel::PML4 => 39,
        TableLevel::PDP => 30,
        TableLevel::PD => 21,
        TableLevel::PT => 12,
    }
}

impl TableLevel {
    /// The level below this one; there is none below the page table.
    pub fn next_level(&self) -> (l: TableLevel)
        requires
            *self != TableLevel::PT,
        ensures
            *self == TableLevel::PML4 ==> l == TableLevel::PDP,
            *self == TableLevel::PDP ==> l == TableLevel::PD,
            *self == TableLevel::PD ==> l == TableLevel::PT,
    {
        match self {
            TableLevel::PML4 => TableLevel::PDP,
            TableLevel::PDP => TableLevel::PD,
            _ => TableLevel::PT,
        }
    }

    /// The index of the entry for `virt_addr` in a table of this level: 9
    /// bits of the address.
    pub fn index(&self, virt_addr: VirtAddr) -> (i: usize)
        ensures
            i == (virt_addr.0 >> level_shift(*self)) & 0x1FF,
            i < 512,
    {
        let shift: u64 = match self {
            TableLevel::PML4 => 39,
            TableLevel::PDP => 30,
            TableLevel::PD => 21,
            TableLevel::PT => 12,
        };
        let a = virt_addr.0;
        let i = (a >> shift) & 0x1FF;
        proof {
            assert((a >> shift) & 0x1FF <= 0x1FF) by (bit_vector);
        }
        i as usize
    }
}

/// An entry of a page table: the address of a frame, with flags in the low
/// and high bits.
#[derive(Debug, Clone, Copy, PartialEq, Eq, Structural)]
pub struct PageEntry(pub u64);

impl PageEntry {
    /// The flags of the entry.
    pub fn flags(&self) -> (f: PageEntryFlags)
        ensures
            f.spec_bits() == self.0 & ALL_FLAGS,
    {
        PageEntryFlags::from_bits_truncate(self.0)
    }

    /// Adds the flags `flags` to the entry: no bit is cleared, and the
    /// entry's flags then hold `flags`.
    pub fn set_flags(&mut self, flags: PageEntryFlags)
        ensures
            final(self).0 == old(self).0 | ((old(self).0 & ALL_FLAGS) | flags.spec_bits()),
            final(self).0 == old(self).0 | flags.spec_bits(),
            (final(self).0 & ALL_FLAGS) & flags.spec_bits() == flags.spec_bits(),
    {
        proof {
            use_type_invariant(&flags);
            lemma_entry_bits(0, 0, 0, self.0, flags.bits);
        }
        self.0 = self.0 | self.flags().union(flags).bits();
    }

    /// Makes the entry point at the frame `addr`, keeping its flags and
    /// marking it present.
    pub fn set_frame_addr(&mut self, addr: u64)
        ensures
            final(self).0 == addr | ((addr & ALL_FLAGS) | ((old(self).0 & ALL_FLAGS) | PRESENT)),
    {
        let flags = self.flags();
        self.0 = addr;
        proof {
            lemma_entry_bits(0, 0, 0, 0, 0);
        }
        self.set_flags(flags.union(PageEntryFlags { bits: PRESENT }));
    }

    /// The address of the frame, when the entry is present.
    pub fn get_frame_addr(&self) -> (a: Option<u64>)
        ensures
            a == if (self.0 & ALL_FLAGS) & PRESENT == PRESENT {
                Some(self.0 & !0xFFFu64)
            } else {
                None
            },
    {
        proof {
            lemma_entry_bits(0, 0, 0, 0, 0);
        }
        if self.flags().contains(PageEntryFlags { bits: PRESENT }) {
            Some(self.0 & !0xFFF)
        } else {
            None
        }
    }

    /// Whether the page is present.
    pub fn is_present(&self) -> (b: bool)
        ensures
            b == ((self.0 & ALL_FLAGS) & PRESENT == PRESENT),
    {
        proof {
            lemma_entry_bits(0, 0, 0, 0, 0);
        }
        self.flags().contains(PageEntryFlags { bits: PRESENT })
    }
}

/// An entry set to a frame at an address aligned to a page, whose flags do
/// not forbid execution, is present, keeps the flags it had, and gives back
/// that address.
pub proof fn lemma_frame_roundtrip(old_entry: u64, addr: u64)
    requires
        addr & 0xFFF == 0,
        addr & NO_EXECUTE == 0,
        old_entry & NO_EXECUTE == 0,
    ensures
        ({
            let e = addr | ((addr & ALL_FLAGS) | ((old_entry & ALL_FLAGS) | PRESENT));
            &&& (e & ALL_FLAGS) & PRESENT == PRESENT
            &&& (e & ALL_FLAGS) & (old_entry & ALL_FLAGS) == old_entry & ALL_FLAGS
            &&& e & !0xFFFu64 == addr
        }),
{
    assert(({
        let e = addr | ((addr & ALL_FLAGS) | ((old_entry & ALL_FLAGS) | PRESENT));
        &&& (e & ALL_FLAGS) & PRESENT == PRESENT
        &&& (e & ALL_FLAGS) & (old_entry & ALL_FLAGS) == old_entry & ALL_FLAGS
        &&& e & !0xFFFu64 == addr
    })) by (bit_vector)
        requires
            addr & 0xFFF == 0,
            addr & NO_EXECUTE == 0,
            old_entry & NO_EXECUTE == 0,
    ;
}

/// A page table: 512 entries.
#[derive(Debug)]
pub struct PageTable {
    pub(crate) entries: Vec<PageEntry>,
}

impl View for PageTable {
    type V = Seq<PageEntry>;

    /// The entries, in order.
    closed spec fn view(&self) -> Seq<PageEntry> {
        self.entries@
    }
}

impl PageTable {
    /// A table of 512 zero entries.
    pub fn new() -> (t: PageTable)
        ensures
            t@ == Seq::new(512, |i: int| PageEntry(0)),
    {
        let mut entries: Vec<PageEntry> = Vec::new();
        let mut i: usize = 0;
        while i < 512
            invariant
                i <= 512,
                entries@ == Seq::new(i as nat, |j: int| PageEntry(0)),
            decreases 512 - i,
        {
            entries.push(PageEntry(0));
            i = i + 1;
        }
        PageTable { entries }
    }

    /// The entries of the upper half of the table, 256 to 511: those that
    /// map the kernel's half of the address space.
    pub fn iter(&self) -> (v: Vec<PageEntry>)
        requires
            self@.len() == 512,
        ensures
            v@ == self@.subrange(256, 512),
    {
        let mut v: Vec<PageEntry> = Vec::new();
        let mut i: usize = 256;
        while i < 512
            invariant
                256 <= i <= 512,
                self.entries@.len() == 512,
                v@ == self.entries@.subrange(256, i as int),
            decreases 512 - i,
        {
            v.push(self.entries[i]);
            i = i + 1;
        }
        v
    }

    /// The entry at `index`.
    pub fn get_entry(&self, index: usize) -> (e: &PageEntry)
        requires
            index < self@.len(),
        ensures
            *e == self@[index as int],
    {
        &self.entries[index]
    }
}

/// A page table of a given level, by its address.
#[derive(Debug, Clone, Copy)]
pub struct PageTablePtr {
    /// The address of the table.
    pub ptr: u64,
    /// The level of the table.
    pub level: TableLevel,
}

impl PageTablePtr {
    /// The table at `ptr`, of level `level`.
    pub fn new(ptr: u64, level: TableLevel) -> (p: Self)
        ensures
            p.ptr == ptr,
            p.level == level,
    {
        PageTablePtr { ptr, level }
    }
}


/// Facts of the bits of entries and flags: masking twice is masking once,
/// flag bits stay flag bits when joined, the flags used are flag bits,
/// adding flags sets exactly them and adding them twice adds nothing more,
/// and an empty entry is not present.
proof fn lemma_entry_bits(b: u64, x: u64, y: u64, e: u64, f: u64)
    by (bit_vector)
    ensures
        (b & ALL_FLAGS) & ALL_FLAGS == b & ALL_FLAGS,
        b & 0x1FF <= 0x1FF,
        (x & ALL_FLAGS == x && y & ALL_FLAGS == y) ==> (x | y) & ALL_FLAGS == x | y,
        PRESENT & ALL_FLAGS == PRESENT,
        USER_ACCESSIBLE & ALL_FLAGS == USER_ACCESSIBLE,
        (PRESENT | WRITABLE) & ALL_FLAGS == PRESENT | WRITABLE,
        (PRESENT | WRITABLE | USER_ACCESSIBLE) & ALL_FLAGS == PRESENT | WRITABLE | USER_ACCESSIBLE,
        f & ALL_FLAGS == f ==> e | ((e & ALL_FLAGS) | f) == e | f,
        f & ALL_FLAGS == f ==> ((e | f) & ALL_FLAGS) & f == f,
        (e | f) | f == e | f,
        (0u64 & ALL_FLAGS) & PRESENT != PRESENT,
        0u64 & NO_EXECUTE == 0,
{
}

/// Adding the same flags to an entry twice leaves it as the first time did.
pub proof fn lemma_set_flags_twice(e: u64, f: u64)
    requires
        f & ALL_FLAGS == f,
    ensures
        (e | ((e & ALL_FLAGS) | f)) | (((e | ((e & ALL_FLAGS) | f)) & ALL_FLAGS) | f) == e | ((e & ALL_FLAGS) | f),
{
    lemma_entry_bits(0, 0, 0, e, f);
    lemma_entry_bits(0, 0, 0, e | f, f);
}


/// The page tables held in memory: the address of each table, and the
/// entries of all of them, 512 after 512 in the order of the addresses.
pub struct PageTables {
    addrs: Vec<u64>,
    entries: Vec<u64>,
}

/// The page tables as values: the address of each table and the entries.
pub struct TablesView {
    /// The address of each table.
    pub addrs: Seq<u64>,
    /// The entries of the tables, 512 for each.
    pub entries: Seq<u64>,
}

impl View for PageTables {
    type V = TablesView;

    closed spec fn view(&self) -> TablesView {
        TablesView { addrs: self.addrs@, entries: self.entries@ }
    }
}

/// Each table has its 512 entries.
pub open spec fn tables_wf(v: TablesView) -> bool {
    v.entries.len() == v.addrs.len() * 512
}

/// The first table from `from` on whose address is `a`.
pub open spec fn table_index(addrs: Seq<u64>, a: u64, from: int) -> Option<int>
    decreases addrs.len() - from,
{
    if from < 0 || from >= addrs.len() {
        None
    } else if addrs[from] == a {
        Some(from)
    } else {
        table_index(addrs, a, from + 1)
    }
}

/// Entry `i` of table `t`.
pub open spec fn entry_of(v: TablesView, t: int, i: int) -> u64 {
    v.entries[t * 512 + i]
}

/// Whether the entry `e` is present.
pub open spec fn is_present(e: u64) -> bool {
    (e & ALL_FLAGS) & PRESENT == PRESENT
}

/// The frame address of the entry `e`.
pub open spec fn frame_of(e: u64) -> u64 {
    e & !0xFFFu64
}

/// The entry for `virt` in a table of level `level`.
pub open spec fn slot_of(level: TableLevel, virt: VirtAddr) -> int {
    ((virt.0 >> level_shift(level)) & 0x1FF) as int
}

/// The entry `e` set to the frame `addr`, keeping its flags, present (see
/// [`PageEntry::set_frame_addr`]).
pub open spec fn with_frame(e: u64, addr: u64) -> u64 {
    addr | ((addr & ALL_FLAGS) | ((e & ALL_FLAGS) | PRESENT))
}

/// The entry `e` made to point at a new table at `addr`: present and
/// writable.
pub open spec fn linked(e: u64, addr: u64) -> u64 {
    with_frame(e, addr) | (PRESENT | WRITABLE)
}

/// The flags of a mapped page: present and writable, and open to user mode
/// where `user`.
pub open spec fn map_flags(user: bool) -> u64 {
    if user {
        PRESENT | WRITABLE | USER_ACCESSIBLE
    } else {
        PRESENT | WRITABLE
    }
}

/// The entry `e` made to map the page at `phys`.
pub open spec fn mapped(e: u64, phys: u64, user: bool) -> u64 {
    with_frame(e, phys) | map_flags(user)
}

/// Why a walk of the tables failed.
#[derive(Debug, Clone, Copy, PartialEq, Eq, Structural)]
pub enum MapError {
    /// An address that should hold a table holds none.
    MissingTable,
    /// A table was needed and no frame was left for it.
    OutOfFrames,
}

/// One step down from the table at `table`, of level `level`, towards
/// `virt`: a present entry leads to its frame; a missing one gets a new
/// table in the last of `frames`, zeroed, and leads to it.
pub open spec fn step(v: TablesView, table: u64, level: TableLevel, virt: VirtAddr, frames: Seq<u64>) -> Result<
    (TablesView, u64, Seq<u64>),
    MapError,
> {
    match table_index(v.addrs, table, 0) {
        None => Err(MapError::MissingTable),
        Some(t) => {
            let i = slot_of(level, virt);
            let e = entry_of(v, t, i);
            if is_present(e) {
                Ok((v, frame_of(e), frames))
            } else if frames.len() == 0 {
                Err(MapError::OutOfFrames)
            } else {
                let a = frames.last();
                Ok(
                    (
                        TablesView {
                            addrs: v.addrs.push(a),
                            entries: v.entries.update(t * 512 + i, linked(e, a)) + Seq::new(512, |k: int| 0u64),
                        },
                        a,
                        frames.drop_last(),
                    ),
                )
            }
        },
    }
}

/// Mapping `virt` to the page at `phys` in the hierarchy whose top table is
/// at `pml4`: three steps down, creating missing tables from `frames`, then
/// the entry of the page table set to `phys` with [`map_flags`]. The tables
/// and the frames left.
pub open spec fn map_result(
    v: TablesView,
    pml4: u64,
    virt: VirtAddr,
    phys: u64,
    frames: Seq<u64>,
    user: bool,
) -> Result<(TablesView, Seq<u64>), MapError> {
    match step(v, pml4, TableLevel::PML4, virt, frames) {
        Err(x) => Err(x),
        Ok(r1) => match step(r1.0, r1.1, TableLevel::PDP, virt, r1.2) {
            Err(x) => Err(x),
            Ok(r2) => match step(r2.0, r2.1, TableLevel::PD, virt, r2.2) {
                Err(x) => Err(x),
                Ok(r3) => match table_index(r3.0.addrs, r3.1, 0) {
                    None => Err(MapError::MissingTable),
                    Some(t) => {
                        let i = slot_of(TableLevel::PT, virt);
                        Ok(
                            (
                                TablesView {
                                    entries: r3.0.entries.update(t * 512 + i, mapped(entry_of(r3.0, t, i), phys, user)),
                                    ..r3.0
                                },
                                r3.2,
                            ),
                        )
                    },
                },
            },
        },
    }
}

/// The entry reached from the table at `table`, of level `level`, for
/// `virt`, following present entries down to the page table; `None` where
/// an entry is missing or an address holds no table.
pub open spec fn lookup(v: TablesView, table: u64, level: TableLevel, virt: VirtAddr) -> Option<u64>
    decreases (match level {
        TableLevel::PML4 => 3int,
        TableLevel::PDP => 2,
        TableLevel::PD => 1,
        TableLevel::PT => 0,
    }),
{
    match table_index(v.addrs, table, 0) {
        None => None,
        Some(t) => {
            let e = entry_of(v, t, slot_of(level, virt));
            if !is_present(e) {
                None
            } else {
                match level {
                    TableLevel::PML4 => lookup(v, frame_of(e), TableLevel::PDP, virt),
                    TableLevel::PDP => lookup(v, frame_of(e), TableLevel::PD, virt),
                    TableLevel::PD => lookup(v, frame_of(e), TableLevel::PT, virt),
                    TableLevel::PT => Some(e),
                }
            }
        },
    }
}

/// The entry of the page that `virt` falls in, in the hierarchy whose top
/// table is at `pml4` (see [`lookup`]).
pub open spec fn translate(v: TablesView, pml4: u64, virt: VirtAddr) -> Option<u64> {
    lookup(v, pml4, TableLevel::PML4, virt)
}

/// A copy of the values of `v`.
fn copy_u64s(v: &Vec<u64>) -> (c: Vec<u64>)
    ensures
        c@ == v@,
{
    let mut c: Vec<u64> = Vec::new();
    let mut i: usize = 0;
    while i < v.len()
        invariant
            i <= v.len(),
            c@ == v@.subrange(0, i as int),
        decreases v.len() - i,
    {
        c.push(v[i]);
        i = i + 1;
    }
    assert(c@ =~= v@);
    c
}

proof fn lemma_slot(t: int, i: int, n: int)
    requires
        0 <= t < n,
        0 <= i < 512,
    ensures
        0 <= t * 512 + i < n * 512,
{
    assert(t * 512 + i < n * 512) by (nonlinear_arith)
        requires
            0 <= t < n,
            0 <= i < 512,
    ;
}

impl PageTables {
    /// Each table has its 512 entries.
    pub closed spec fn wf(&self) -> bool {
        tables_wf(self@)
    }

    /// No tables.
    pub fn new() -> (t: PageTables)
        ensures
            t.wf(),
            t@.addrs == Seq::<u64>::empty(),
    {
        PageTables { addrs: Vec::new(), entries: Vec::new() }
    }

    /// Adds a table of 512 empty entries at `addr`.
    pub fn add_table(&mut self, addr: u64)
        requires
            old(self).wf(),
            (old(self)@.addrs.len() + 1) * 512 <= usize::MAX,
        ensures
            final(self).wf(),
            final(self)@.addrs == old(self)@.addrs.push(addr),
            final(self)@.entries == old(self)@.entries + Seq::new(512, |k: int| 0u64),
    {
        self.addrs.push(addr);
        let mut k: usize = 0;
        let ghost e0 = self.entries@;
        while k < 512
            invariant
                k <= 512,
                self.entries@ == e0 + Seq::new(k as nat, |j: int| 0u64),
                self.addrs@ == old(self)@.addrs.push(addr),
                e0 == old(self)@.entries,
                e0.len() == old(self)@.addrs.len() * 512,
            decreases 512 - k,
        {
            self.entries.push(0);
            k = k + 1;
            assert(self.entries@ =~= e0 + Seq::new(k as nat, |j: int| 0u64));
        }
        let ghost n0 = old(self)@.addrs.len() as int;
        let ghost n = self.addrs@.len() as int;
        let ghost m = self.entries@.len() as int;
        assert(m == n0 * 512 + 512 && n == n0 + 1);
        assert(m == n * 512) by (nonlinear_arith)
            requires
                m == n0 * 512 + 512,
                n == n0 + 1,
        ;
    }

    /// The first table at address `a`.
    pub fn find_table(&self, a: u64) -> (r: Option<usize>)
        ensures
            match r {
                Some(t) => table_index(self@.addrs, a, 0) == Some(t as int),
                None => table_index(self@.addrs, a, 0) is None,
            },
    {
        let mut i: usize = 0;
        while i < self.addrs.len()
            invariant
                i <= self.addrs@.len(),
                table_index(self@.addrs, a, 0) == table_index(self@.addrs, a, i as int),
            decreases self.addrs@.len() - i,
        {
            if self.addrs[i] == a {
                return Some(i);
            }
            i = i + 1;
        }
        None
    }

    /// Entry `i` of the table at `a`, where there is such a table.
    pub fn entry(&self, a: u64, i: usize) -> (e: Option<PageEntry>)
        requires
            self.wf(),
            i < 512,
        ensures
            match table_index(self@.addrs, a, 0) {
                Some(t) => e == Some(PageEntry(entry_of(self@, t, i as int))),
                None => e is None,
            },
    {
        match self.find_table(a) {
            Some(t) => {
                proof {
                    lemma_table_index_range(self@.addrs, a, 0);
                    lemma_slot(t as int, i as int, self@.addrs.len() as int);
                    assert(t * 512 + i < self.entries@.len());
                }
                let len = self.entries.len();
                assert(t * 512 < len);
                Some(PageEntry(self.entries[t * 512 + i]))
            },
            None => None,
        }
    }

    /// The entry of the page that `virt` falls in, in the hierarchy whose
    /// top table is at `pml4`; `None` where an entry on the way is missing
    /// (see [`translate`]).
    pub fn get_entry_for_address(&self, pml4: u64, virt: VirtAddr) -> (e: Option<PageEntry>)
        requires
            self.wf(),
        ensures
            match translate(self@, pml4, virt) {
                Some(x) => e == Some(PageEntry(x)),
                None => e is None,
            },
    {
        let mut table = pml4;
        let mut level = TableLevel::PML4;
        loop
            invariant
                self.wf(),
                lookup(self@, table, level, virt) == translate(self@, pml4, virt),
            decreases (match level {
                TableLevel::PML4 => 3int,
                TableLevel::PDP => 2,
                TableLevel::PD => 1,
                TableLevel::PT => 0,
            }),
        {
            let i = level.index(virt);
            let e = match self.entry(table, i) {
                Some(e) => e,
                None => {
                    return None;
                },
            };
            if !e.is_present() {
                return None;
            }
            if level == TableLevel::PT {
                return Some(e);
            }
            let next = match e.get_frame_addr() {
                Some(a) => a,
                None => {
                    return None;
                },
            };
            table = next;
            level = level.next_level();
        }
    }
}

proof fn lemma_table_index_range(addrs: Seq<u64>, a: u64, from: int)
    requires
        0 <= from,
    ensures
        table_index(addrs, a, from) matches Some(t) ==> from <= t < addrs.len() && addrs[t] == a,
    decreases addrs.len() - from,
{
    if from < addrs.len() {
        lemma_table_index_range(addrs, a, from + 1);
    }
}


/// The level below `level` (the page table is the last).
pub open spec fn level_below(level: TableLevel) -> TableLevel {
    match level {
        TableLevel::PML4 => TableLevel::PDP,
        TableLevel::PDP => TableLevel::PD,
        _ => TableLevel::PT,
    }
}

impl PageTablePtr {
    /// The table of the next level for `virt`, where the entry for it is
    /// present; `None` where it is missing or no table is at this address.
    pub fn next(&self, tables: &PageTables, virt: VirtAddr) -> (r: Option<PageTablePtr>)
        requires
            tables.wf(),
            self.level != TableLevel::PT,
        ensures
            match table_index(tables@.addrs, self.ptr, 0) {
                None => r is None,
                Some(t) => {
                    let e = entry_of(tables@, t, slot_of(self.level, virt));
                    if is_present(e) {
                        r == Some(PageTablePtr { ptr: frame_of(e), level: level_below(self.level) })
                    } else {
                        r is None
                    }
                },
            },
    {
        let i = self.level.index(virt);
        let e = match tables.entry(self.ptr, i) {
            Some(e) => e,
            None => {
                return None;
            },
        };
        match e.get_frame_addr() {
            Some(a) => Some(PageTablePtr::new(a, self.level.next_level())),
            None => None,
        }
    }

    /// The table of the next level for `virt`, created where the entry for
    /// it is missing (see [`step`]): the new table takes the last frame of
    /// `frames`, is zeroed, and the entry is set to it, present and
    /// writable.
    pub fn next_or_create(&self, tables: &mut PageTables, virt: VirtAddr, frames: &mut Vec<u64>) -> (r: Result<
        PageTablePtr,
        MapError,
    >)
        requires
            old(tables).wf(),
            self.level != TableLevel::PT,
            (old(tables)@.addrs.len() + 1) * 512 <= usize::MAX,
        ensures
            final(tables).wf(),
            match step(old(tables)@, self.ptr, self.level, virt, old(frames)@) {
                Ok(q) => {
                    &&& r == Ok::<PageTablePtr, MapError>(PageTablePtr { ptr: q.1, level: level_below(self.level) })
                    &&& final(tables)@ == q.0
                    &&& final(frames)@ == q.2
                },
                Err(x) => {
                    &&& r == Err::<PageTablePtr, MapError>(x)
                    &&& final(tables)@ == old(tables)@
                    &&& final(frames)@ == old(frames)@
                },
            },
    {
        let i = self.level.index(virt);
        let t = match tables.find_table(self.ptr) {
            Some(t) => t,
            None => {
                return Err(MapError::MissingTable);
            },
        };
        proof {
            lemma_table_index_range(tables@.addrs, self.ptr, 0);
            lemma_slot(t as int, i as int, tables@.addrs.len() as int);
        }
        let len = tables.entries.len();
        assert(t * 512 < len);
        let pos = t * 512 + i;
        let e = PageEntry(tables.entries[pos]);
        if e.is_present() {
            return Ok(PageTablePtr::new(e.0 & !0xFFF, self.level.next_level()));
        }
        let a = match frames.pop() {
            Some(a) => a,
            None => {
                return Err(MapError::OutOfFrames);
            },
        };
        let mut pe = e;
        pe.set_frame_addr(a);
        proof {
            lemma_entry_bits(0, 0, 0, 0, 0);
        }
        pe.set_flags(PageEntryFlags::from_bits_truncate(PRESENT | WRITABLE));
        tables.entries.set(pos, pe.0);
        tables.add_table(a);
        Ok(PageTablePtr::new(a, self.level.next_level()))
    }
}

impl PageTables {
    /// Maps `virt` to the page at `phys` in the hierarchy whose top table is
    /// at `pml4`, creating missing tables from `frames` (see
    /// [`map_result`]); nothing changes where that fails.
    pub(crate) fn map_page(
        &mut self,
        pml4: u64,
        virt: VirtAddr,
        phys: u64,
        frames: &mut Vec<u64>,
        user: bool,
    ) -> (r: Result<(), MapError>)
        requires
            old(self).wf(),
            (old(self)@.addrs.len() + 3) * 512 <= usize::MAX,
        ensures
            final(self).wf(),
            match map_result(old(self)@, pml4, virt, phys, old(frames)@, user) {
                Ok(q) => r is Ok && final(self)@ == q.0 && final(frames)@ == q.1,
                Err(x) => r == Err::<(), MapError>(x) && final(self)@ == old(self)@ && final(frames)@ == old(frames)@,
            },
    {
        let saved_addrs = copy_u64s(&self.addrs);
        let saved_entries = copy_u64s(&self.entries);
        let saved_frames = copy_u64s(frames);
        let top = PageTablePtr::new(pml4, TableLevel::PML4);
        let r1 = top.next_or_create(self, virt, frames);
        let p1 = match r1 {
            Ok(p) => p,
            Err(x) => {
                return Err(x);
            },
        };
        let r2 = p1.next_or_create(self, virt, frames);
        let p2 = match r2 {
            Ok(p) => p,
            Err(x) => {
                self.addrs = saved_addrs;
                self.entries = saved_entries;
                *frames = saved_frames;
                return Err(x);
            },
        };
        let r3 = p2.next_or_create(self, virt, frames);
        let p3 = match r3 {
            Ok(p) => p,
            Err(x) => {
                self.addrs = saved_addrs;
                self.entries = saved_entries;
                *frames = saved_frames;
                return Err(x);
            },
        };
        let i = TableLevel::PT.index(virt);
        let t = match self.find_table(p3.ptr) {
            Some(t) => t,
            None => {
                self.addrs = saved_addrs;
                self.entries = saved_entries;
                *frames = saved_frames;
                return Err(MapError::MissingTable);
            },
        };
        proof {
            lemma_table_index_range(self@.addrs, p3.ptr, 0);
            lemma_slot(t as int, i as int, self@.addrs.len() as int);
        }
        let len = self.entries.len();
        assert(t * 512 < len);
        let pos = t * 512 + i;
        let mut pe = PageEntry(self.entries[pos]);
        pe.set_frame_addr(phys);
        proof {
            lemma_entry_bits(0, 0, 0, 0, 0);
        }
        let flags = if user {
            PageEntryFlags::from_bits_truncate(PRESENT | WRITABLE | USER_ACCESSIBLE)
        } else {
            PageEntryFlags::from_bits_truncate(PRESENT | WRITABLE)
        };
        pe.set_flags(flags);
        self.entries.set(pos, pe.0);
        Ok(())
    }
}


/// The bits of an entry that hold the address of its frame.
pub const ADDRESS_BITS: u64 = 0x7FFF_FFFF_FFFF_F000;

/// Facts of the bits of linked and mapped entries: an entry linked to, or
/// mapping, a page-aligned address below bit 63 is present, keeps that
/// address in its address bits (a linked entry whose old value has bit 63
/// clear gives it back as its frame), and holds the flags asked for.
proof fn lemma_link_bits(e: u64, a: u64)
    by (bit_vector)
    requires
        a & 0xFFF == 0,
        a & NO_EXECUTE == 0,
    ensures
        e & NO_EXECUTE == 0 ==> (addr_or_flags(e, a) | (PRESENT | WRITABLE)) & !0xFFFu64 == a,
        ((addr_or_flags(e, a) | (PRESENT | WRITABLE)) & ALL_FLAGS) & PRESENT == PRESENT,
        (addr_or_flags(e, a) | (PRESENT | WRITABLE)) & ADDRESS_BITS == a,
        ((addr_or_flags(e, a) | (PRESENT | WRITABLE)) & ALL_FLAGS) & (PRESENT | WRITABLE) == PRESENT | WRITABLE,
        (addr_or_flags(e, a) | (PRESENT | WRITABLE | USER_ACCESSIBLE)) & ADDRESS_BITS == a,
        ((addr_or_flags(e, a) | (PRESENT | WRITABLE | USER_ACCESSIBLE)) & ALL_FLAGS) & PRESENT == PRESENT,
        ((addr_or_flags(e, a) | (PRESENT | WRITABLE | USER_ACCESSIBLE)) & ALL_FLAGS) & (PRESENT | WRITABLE
            | USER_ACCESSIBLE) == PRESENT | WRITABLE | USER_ACCESSIBLE,
{
}

/// The entry `e` set to the frame `addr` (see [`with_frame`]).
spec fn addr_or_flags(e: u64, addr: u64) -> u64 {
    addr | ((addr & ALL_FLAGS) | ((e & ALL_FLAGS) | PRESENT))
}

/// A table found by its address is still found, at the same place, once
/// more tables are added after it.
proof fn lemma_table_index_extend(s: Seq<u64>, x: Seq<u64>, a: u64, from: int)
    requires
        0 <= from,
        table_index(s, a, from) is Some,
    ensures
        table_index(s + x, a, from) == table_index(s, a, from),
    decreases s.len() - from,
{
    if from < s.len() && s[from] != a {
        lemma_table_index_extend(s, x, a, from + 1);
    }
    if from < s.len() {
        assert((s + x)[from] == s[from]);
    }
}

/// A new address added after the tables is found at the new place.
proof fn lemma_table_index_fresh(s: Seq<u64>, a: u64, from: int)
    requires
        0 <= from <= s.len(),
        !s.contains(a),
    ensures
        table_index(s.push(a), a, from) == Some(s.len() as int),
    decreases s.len() - from,
{
    if from < s.len() {
        assert(s.push(a)[from] == s[from]);
        assert(s[from] != a) by {
            if s[from] == a {
                assert(s.contains(a));
            }
        }
        lemma_table_index_fresh(s, a, from + 1);
    } else {
        assert(s.push(a)[from] == a);
    }
}

/// The tables that mapping `virt` goes through below the top one.
pub open spec fn map_path(v: TablesView, pml4: u64, virt: VirtAddr, frames: Seq<u64>) -> (u64, u64, u64) {
    let r1 = step(v, pml4, TableLevel::PML4, virt, frames)->Ok_0;
    let r2 = step(r1.0, r1.1, TableLevel::PDP, virt, r1.2)->Ok_0;
    let r3 = step(r2.0, r2.1, TableLevel::PD, virt, r2.2)->Ok_0;
    (r1.1, r2.1, r3.1)
}


/// Every missing entry of the tables has bit 63 clear.
pub open spec fn missing_clear(v: TablesView) -> bool {
    forall|k: int| 0 <= k < v.entries.len() && !is_present(#[trigger] v.entries[k]) ==> v.entries[k] & NO_EXECUTE == 0
}

/// The frames are all different, aligned to a page, below bit 63, and hold
/// no table yet.
pub open spec fn frames_fresh(v: TablesView, frames: Seq<u64>) -> bool {
    &&& frames.no_duplicates()
    &&& forall|i: int|
        0 <= i < frames.len() ==> #[trigger] frames[i] & 0xFFF == 0 && frames[i] & NO_EXECUTE == 0
            && !v.addrs.contains(frames[i])
}

/// What one step down does: the entry it goes through is present and
/// leads to the next table, the other entries stay, tables are only added,
/// and the conditions on missing entries and frames still hold.
proof fn lemma_step_ok(v: TablesView, table: u64, level: TableLevel, virt: VirtAddr, frames: Seq<u64>)
    requires
        tables_wf(v),
        missing_clear(v),
        frames_fresh(v, frames),
        step(v, table, level, virt, frames) is Ok,
    ensures
        ({
            let q = step(v, table, level, virt, frames)->Ok_0;
            let t = table_index(v.addrs, table, 0)->0;
            let s = slot_of(level, virt);
            &&& table_index(v.addrs, table, 0) is Some
            &&& 0 <= t < v.addrs.len()
            &&& 0 <= s < 512
            &&& tables_wf(q.0)
            &&& missing_clear(q.0)
            &&& frames_fresh(q.0, q.2)
            &&& is_present(entry_of(q.0, t, s))
            &&& frame_of(entry_of(q.0, t, s)) == q.1
            &&& q.0.addrs.len() >= v.addrs.len()
            &&& q.0.addrs.subrange(0, v.addrs.len() as int) == v.addrs
            &&& forall|p: int| 0 <= p < v.entries.len() && p != t * 512 + s ==> #[trigger] q.0.entries[p] == v.entries[p]
        }),
{
    let t = table_index(v.addrs, table, 0)->0;
    lemma_table_index_range(v.addrs, table, 0);
    let i = slot_of(level, virt);
    assert(0 <= i < 512) by {
        lemma_entry_bits(virt.0 >> level_shift(level), 0, 0, 0, 0);
    }
    lemma_slot(t, i, v.addrs.len() as int);
    let e = entry_of(v, t, i);
    let q = step(v, table, level, virt, frames)->Ok_0;
    if is_present(e) {
        assert(q.0.addrs.subrange(0, v.addrs.len() as int) =~= v.addrs);
    } else {
        let a = frames.last();
        assert(frames[frames.len() - 1] == a);
        assert(e & NO_EXECUTE == 0) by {
            assert(!is_present(v.entries[t * 512 + i]));
        }
        lemma_link_bits(e, a);
        lemma_entry_bits(0, 0, 0, 0, 0);
        let n = v.entries.len() as int;
        assert(q.0.entries.len() == n + 512);
        assert(tables_wf(q.0));
        assert forall|k: int| 0 <= k < q.0.entries.len() && !is_present(#[trigger] q.0.entries[k]) implies q.0.entries[k]
            & NO_EXECUTE == 0 by {
            if k < n && k != t * 512 + i {
                assert(q.0.entries[k] == v.entries[k]);
            } else if k >= n {
                assert(q.0.entries[k] == 0u64);
            }
        }
        let f2 = frames.drop_last();
        assert forall|j: int| 0 <= j < f2.len() implies #[trigger] f2[j] & 0xFFF == 0 && f2[j] & NO_EXECUTE == 0
            && !q.0.addrs.contains(f2[j]) by {
            assert(f2[j] == frames[j]);
            assert(frames[j] != a);
            if q.0.addrs.contains(f2[j]) {
                let w = choose|w: int| 0 <= w < q.0.addrs.len() && q.0.addrs[w] == f2[j];
                if w < v.addrs.len() {
                    assert(v.addrs[w] == f2[j]);
                    assert(v.addrs.contains(frames[j]));
                }
            }
        }
        assert(q.0.addrs.subrange(0, v.addrs.len() as int) =~= v.addrs);
        assert(entry_of(q.0, t, i) == linked(e, a));
    }
}

/// Mapping a page and then looking up its address gives the page: after
/// [`map_result`] maps `virt` to `phys`, [`translate`] finds for `virt` a
/// present entry whose address bits are `phys` and whose flags hold those
/// asked for. This holds where `phys` is aligned to a page and below bit 63,
/// the frames given are all different, aligned, below bit 63 and hold no
/// table yet, the missing entries of the tables have bit 63 clear (a new
/// table's address would take it on), and the four tables on the way are
/// different ones (an entry that leads back to a table on the way could be
/// overwritten).
pub proof fn lemma_map_then_translate(
    v: TablesView,
    pml4: u64,
    virt: VirtAddr,
    phys: u64,
    frames: Seq<u64>,
    user: bool,
)
    requires
        tables_wf(v),
        missing_clear(v),
        frames_fresh(v, frames),
        phys & 0xFFF == 0,
        phys & NO_EXECUTE == 0,
        map_result(v, pml4, virt, phys, frames, user) is Ok,
        ({
            let (a1, a2, a3) = map_path(v, pml4, virt, frames);
            pml4 != a1 && pml4 != a2 && pml4 != a3 && a1 != a2 && a1 != a3 && a2 != a3
        }),
    ensures
        ({
            let w = (map_result(v, pml4, virt, phys, frames, user)->Ok_0).0;
            &&& translate(w, pml4, virt) matches Some(e)
            &&& e & ADDRESS_BITS == phys
            &&& (e & ALL_FLAGS) & map_flags(user) == map_flags(user)
        }),
{
    let r1 = step(v, pml4, TableLevel::PML4, virt, frames)->Ok_0;
    lemma_step_ok(v, pml4, TableLevel::PML4, virt, frames);
    let r2 = step(r1.0, r1.1, TableLevel::PDP, virt, r1.2)->Ok_0;
    lemma_step_ok(r1.0, r1.1, TableLevel::PDP, virt, r1.2);
    let r3 = step(r2.0, r2.1, TableLevel::PD, virt, r2.2)->Ok_0;
    lemma_step_ok(r2.0, r2.1, TableLevel::PD, virt, r2.2);
    let t0 = table_index(v.addrs, pml4, 0)->0;
    let t1 = table_index(r1.0.addrs, r1.1, 0)->0;
    let t2 = table_index(r2.0.addrs, r2.1, 0)->0;
    let t3 = table_index(r3.0.addrs, r3.1, 0)->0;
    lemma_table_index_range(v.addrs, pml4, 0);
    lemma_table_index_range(r1.0.addrs, r1.1, 0);
    lemma_table_index_range(r2.0.addrs, r2.1, 0);
    lemma_table_index_range(r3.0.addrs, r3.1, 0);
    let s0 = slot_of(TableLevel::PML4, virt);
    let s1 = slot_of(TableLevel::PDP, virt);
    let s2 = slot_of(TableLevel::PD, virt);
    let s3 = slot_of(TableLevel::PT, virt);
    assert(0 <= s3 < 512) by {
        lemma_entry_bits(virt.0 >> level_shift(TableLevel::PT), 0, 0, 0, 0);
    }
    let w = (map_result(v, pml4, virt, phys, frames, user)->Ok_0).0;
    let fa = w.addrs;
    assert(fa == r3.0.addrs);
    // The tables keep their places as tables are added.
    assert(fa[t0] == pml4 && fa[t1] == r1.1 && fa[t2] == r2.1 && fa[t3] == r3.1) by {
        assert(r3.0.addrs.subrange(0, r2.0.addrs.len() as int) == r2.0.addrs);
        assert(r2.0.addrs.subrange(0, r1.0.addrs.len() as int) == r1.0.addrs);
        assert(r1.0.addrs.subrange(0, v.addrs.len() as int) == v.addrs);
        assert(r2.0.addrs[t1] == r1.0.addrs[t1]);
        assert(r2.0.addrs[t0] == r1.0.addrs[t0]);
        assert(r1.0.addrs[t0] == v.addrs[t0]);
        assert(r3.0.addrs[t2] == r2.0.addrs[t2]);
        assert(r3.0.addrs[t1] == r2.0.addrs[t1]);
        assert(r3.0.addrs[t0] == r2.0.addrs[t0]);
    }
    assert(t0 != t1 && t0 != t2 && t0 != t3 && t1 != t2 && t1 != t3 && t2 != t3);
    // Each table is found in the end where it was found on the way.
    lemma_table_index_extend(v.addrs, fa.subrange(v.addrs.len() as int, fa.len() as int), pml4, 0);
    assert(v.addrs + fa.subrange(v.addrs.len() as int, fa.len() as int) =~= fa) by {
        assert(r3.0.addrs.subrange(0, r2.0.addrs.len() as int) == r2.0.addrs);
        assert(r2.0.addrs.subrange(0, r1.0.addrs.len() as int) == r1.0.addrs);
        assert(r1.0.addrs.subrange(0, v.addrs.len() as int) == v.addrs);
        assert forall|k: int| 0 <= k < v.addrs.len() implies fa[k] == v.addrs[k] by {
            assert(r3.0.addrs[k] == r2.0.addrs[k]);
            assert(r2.0.addrs[k] == r1.0.addrs[k]);
            assert(r1.0.addrs[k] == v.addrs[k]);
        }
    }
    lemma_table_index_extend(r1.0.addrs, fa.subrange(r1.0.addrs.len() as int, fa.len() as int), r1.1, 0);
    assert(r1.0.addrs + fa.subrange(r1.0.addrs.len() as int, fa.len() as int) =~= fa) by {
        assert(r3.0.addrs.subrange(0, r2.0.addrs.len() as int) == r2.0.addrs);
        assert(r2.0.addrs.subrange(0, r1.0.addrs.len() as int) == r1.0.addrs);
        assert forall|k: int| 0 <= k < r1.0.addrs.len() implies fa[k] == r1.0.addrs[k] by {
            assert(r3.0.addrs[k] == r2.0.addrs[k]);
            assert(r2.0.addrs[k] == r1.0.addrs[k]);
        }
    }
    lemma_table_index_extend(r2.0.addrs, fa.subrange(r2.0.addrs.len() as int, fa.len() as int), r2.1, 0);
    assert(r2.0.addrs + fa.subrange(r2.0.addrs.len() as int, fa.len() as int) =~= fa) by {
        assert(r3.0.addrs.subrange(0, r2.0.addrs.len() as int) == r2.0.addrs);
    }
    assert(table_index(fa, r3.1, 0) == Some(t3));
    // The entries on the way keep what the steps wrote.
    lemma_slot(t0, s0, v.addrs.len() as int);
    lemma_slot(t1, s1, r1.0.addrs.len() as int);
    lemma_slot(t2, s2, r2.0.addrs.len() as int);
    lemma_slot(t3, s3, r3.0.addrs.len() as int);
    assert(entry_of(w, t0, s0) == entry_of(r1.0, t0, s0)) by {
        assert(r2.0.entries[t0 * 512 + s0] == r1.0.entries[t0 * 512 + s0]);
        assert(r3.0.entries[t0 * 512 + s0] == r2.0.entries[t0 * 512 + s0]);
    }
    assert(entry_of(w, t1, s1) == entry_of(r2.0, t1, s1)) by {
        assert(r3.0.entries[t1 * 512 + s1] == r2.0.entries[t1 * 512 + s1]);
    }
    assert(entry_of(w, t2, s2) == entry_of(r3.0, t2, s2));
    let e3 = entry_of(r3.0, t3, s3);
    assert(entry_of(w, t3, s3) == mapped(e3, phys, user));
    lemma_link_bits(e3, phys);
    assert(lookup(w, r3.1, TableLevel::PT, virt) == Some(mapped(e3, phys, user)));
    assert(lookup(w, r2.1, TableLevel::PD, virt) == Some(mapped(e3, phys, user)));
    assert(lookup(w, r1.1, TableLevel::PDP, virt) == Some(mapped(e3, phys, user)));
    assert(lookup(w, pml4, TableLevel::PML4, virt) == Some(mapped(e3, phys, user)));
}


/// The entry `e` opened to user mode (see [`PageEntry::set_flags`]).
pub open spec fn user_entry(e: u64) -> u64 {
    e | ((e & ALL_FLAGS) | ((e & ALL_FLAGS) | USER_ACCESSIBLE))
}

/// One step down from the table at `table`, of level `level`, towards
/// `virt`, opening the entry on the way to user mode: the entry must be
/// present, and leads to its frame.
pub open spec fn user_step(v: TablesView, table: u64, level: TableLevel, virt: VirtAddr) -> Result<
    (TablesView, u64),
    MapError,
> {
    match table_index(v.addrs, table, 0) {
        None => Err(MapError::MissingTable),
        Some(t) => {
            let i = slot_of(level, virt);
            let e = user_entry(entry_of(v, t, i));
            if !is_present(e) {
                Err(MapError::MissingTable)
            } else {
                Ok((TablesView { entries: v.entries.update(t * 512 + i, e), ..v }, frame_of(e)))
            }
        },
    }
}

/// Mapping `virt` to the page at `phys` for user mode in the hierarchy
/// whose top table is at `pml4`: the entries on the way, which must all be
/// present, are opened to user mode, and the entry of the page table is set
/// to `phys`, present, writable and open to user mode.
pub open spec fn user_map_result(v: TablesView, pml4: u64, virt: VirtAddr, phys: u64) -> Result<TablesView, MapError> {
    match user_step(v, pml4, TableLevel::PML4, virt) {
        Err(x) => Err(x),
        Ok(r1) => match user_step(r1.0, r1.1, TableLevel::PDP, virt) {
            Err(x) => Err(x),
            Ok(r2) => match user_step(r2.0, r2.1, TableLevel::PD, virt) {
                Err(x) => Err(x),
                Ok(r3) => match table_index(r3.0.addrs, r3.1, 0) {
                    None => Err(MapError::MissingTable),
                    Some(t) => {
                        let i = slot_of(TableLevel::PT, virt);
                        Ok(
                            TablesView {
                                entries: r3.0.entries.update(t * 512 + i, mapped(entry_of(r3.0, t, i), phys, true)),
                                ..r3.0
                            },
                        )
                    },
                },
            },
        },
    }
}

impl PageTablePtr {
    /// Opens the entry for `virt` to user mode and gives the table it leads
    /// to (see [`user_step`]); nothing changes where that fails.
    fn user_next(&self, tables: &mut PageTables, virt: VirtAddr) -> (r: Result<PageTablePtr, MapError>)
        requires
            old(tables).wf(),
            self.level != TableLevel::PT,
        ensures
            final(tables).wf(),
            match user_step(old(tables)@, self.ptr, self.level, virt) {
                Ok(q) => r == Ok::<PageTablePtr, MapError>(PageTablePtr { ptr: q.1, level: level_below(self.level) })
                    && final(tables)@ == q.0,
                Err(x) => r == Err::<PageTablePtr, MapError>(x) && final(tables)@ == old(tables)@,
            },
    {
        let i = self.level.index(virt);
        let t = match tables.find_table(self.ptr) {
            Some(t) => t,
            None => {
                return Err(MapError::MissingTable);
            },
        };
        proof {
            lemma_table_index_range(tables@.addrs, self.ptr, 0);
            lemma_slot(t as int, i as int, tables@.addrs.len() as int);
        }
        let len = tables.entries.len();
        assert(t * 512 < len);
        let pos = t * 512 + i;
        let mut e = PageEntry(tables.entries[pos]);
        proof {
            lemma_entry_bits(0, 0, 0, 0, 0);
        }
        let f = e.flags().union(PageEntryFlags::from_bits_truncate(USER_ACCESSIBLE));
        e.set_flags(f);
        if !e.is_present() {
            return Err(MapError::MissingTable);
        }
        tables.entries.set(pos, e.0);
        Ok(PageTablePtr::new(e.0 & !0xFFF, self.level.next_level()))
    }
}

impl PageTables {
    /// Maps `virt` to the page at `phys` for user mode in the hierarchy
    /// whose top table is at `pml4` (see [`user_map_result`]); nothing
    /// changes where that fails.
    pub(crate) fn map_user(&mut self, pml4: u64, virt: VirtAddr, phys: u64) -> (r: Result<(), MapError>)
        requires
            old(self).wf(),
        ensures
            final(self).wf(),
            match user_map_result(old(self)@, pml4, virt, phys) {
                Ok(w) => r is Ok && final(self)@ == w,
                Err(x) => r == Err::<(), MapError>(x) && final(self)@ == old(self)@,
            },
    {
        let saved_addrs = copy_u64s(&self.addrs);
        let saved_entries = copy_u64s(&self.entries);
        let top = PageTablePtr::new(pml4, TableLevel::PML4);
        let p1 = match top.user_next(self, virt) {
            Ok(p) => p,
            Err(x) => {
                return Err(x);
            },
        };
        let p2 = match p1.user_next(self, virt) {
            Ok(p) => p,
            Err(x) => {
                self.addrs = saved_addrs;
                self.entries = saved_entries;
                return Err(x);
            },
        };
        let p3 = match p2.user_next(self, virt) {
            Ok(p) => p,
            Err(x) => {
                self.addrs = saved_addrs;
                self.entries = saved_entries;
                return Err(x);
            },
        };
        let i = TableLevel::PT.index(virt);
        let t = match self.find_table(p3.ptr) {
            Some(t) => t,
            None => {
                self.addrs = saved_addrs;
                self.entries = saved_entries;
                return Err(MapError::MissingTable);
            },
        };
        proof {
            lemma_table_index_range(self@.addrs, p3.ptr, 0);
            lemma_slot(t as int, i as int, self@.addrs.len() as int);
        }
        let len = self.entries.len();
        assert(t * 512 < len);
        let pos = t * 512 + i;
        let mut pe = PageEntry(self.entries[pos]);
        pe.set_frame_addr(phys);
        proof {
            lemma_entry_bits(0, 0, 0, 0, 0);
        }
        pe.set_flags(PageEntryFlags::from_bits_truncate(PRESENT | WRITABLE | USER_ACCESSIBLE));
        self.entries.set(pos, pe.0);
        Ok(())
    }
}


/// Copying the table at `src`, `depth` levels above the page tables (3 for
/// the top table, 0 for a page table): a new table takes the last of
/// `frames`, zeroed, and each present entry is copied, at the page table
/// level as it is, above it as an entry, present and writable, leading to a
/// copy of the table it leads to (see [`clone_entries`]). The tables, the
/// copy's address and the frames left.
pub open spec fn clone_table(v: TablesView, src: u64, depth: nat, frames: Seq<u64>) -> Result<
    (TablesView, u64, Seq<u64>),
    MapError,
>
    decreases depth, 513int,
{
    match table_index(v.addrs, src, 0) {
        None => Err(MapError::MissingTable),
        Some(ts) => if frames.len() == 0 {
            Err(MapError::OutOfFrames)
        } else {
            let a = frames.last();
            let v1 = TablesView { addrs: v.addrs.push(a), entries: v.entries + Seq::new(512, |k: int| 0u64) };
            match clone_entries(v1, ts, v.addrs.len() as int, depth, 0, frames.drop_last()) {
                Err(x) => Err(x),
                Ok(q) => Ok((q.0, a, q.1)),
            }
        },
    }
}

/// Copying the entries from `k` on of the table `ts` into the new table
/// `nt` (see [`clone_table`]).
pub open spec fn clone_entries(v: TablesView, ts: int, nt: int, depth: nat, k: nat, frames: Seq<u64>) -> Result<
    (TablesView, Seq<u64>),
    MapError,
>
    decreases depth, 512 - k,
{
    if k >= 512 {
        Ok((v, frames))
    } else {
        let e = entry_of(v, ts, k as int);
        if !is_present(e) {
            clone_entries(v, ts, nt, depth, k + 1, frames)
        } else if depth == 0 {
            clone_entries(TablesView { entries: v.entries.update(nt * 512 + k, e), ..v }, ts, nt, depth, k + 1, frames)
        } else {
            match clone_table(v, frame_of(e), (depth - 1) as nat, frames) {
                Err(x) => Err(x),
                Ok(q) => clone_entries(
                    TablesView { entries: q.0.entries.update(nt * 512 + k, linked(0, q.1)), ..q.0 },
                    ts,
                    nt,
                    depth,
                    k + 1,
                    q.2,
                ),
            }
        }
    }
}

impl PageTables {
    /// Copies the table at `src` and the tables below it (see
    /// [`clone_table`]); where that fails, the tables may hold part of the
    /// copy.
    fn clone_from(&mut self, src: u64, depth: u8, frames: &mut Vec<u64>) -> (r: Result<u64, MapError>)
        requires
            old(self).wf(),
            depth <= 3,
            (old(self)@.addrs.len() + old(frames)@.len()) * 512 <= usize::MAX,
        ensures
            final(self).wf(),
            match clone_table(old(self)@, src, depth as nat, old(frames)@) {
                Ok(q) => {
                    &&& r == Ok::<u64, MapError>(q.1)
                    &&& final(self)@ == q.0
                    &&& final(frames)@ == q.2
                    &&& final(self)@.addrs.len() >= old(self)@.addrs.len()
                    &&& final(self)@.addrs.len() + final(frames)@.len() == old(self)@.addrs.len() + old(frames)@.len()
                },
                Err(x) => r == Err::<u64, MapError>(x),
            },
        decreases depth,
    {
        let ts = match self.find_table(src) {
            Some(t) => t,
            None => {
                return Err(MapError::MissingTable);
            },
        };
        proof {
            lemma_table_index_range(self@.addrs, src, 0);
        }
        let a = match frames.pop() {
            Some(a) => a,
            None => {
                return Err(MapError::OutOfFrames);
            },
        };
        let nt = self.addrs.len();
        self.add_table(a);
        let ghost total = clone_entries(self@, ts as int, nt as int, depth as nat, 0, frames@);
        let ghost n0 = old(self)@.addrs.len();
        let ghost sum = old(self)@.addrs.len() + old(frames)@.len();
        proof {
            assert(self@.entries == old(self)@.entries + Seq::new(512, |k: int| 0u64));
            assert(clone_table(old(self)@, src, depth as nat, old(frames)@) == (match total {
                Err(x) => Err(x),
                Ok(q) => Ok((q.0, a, q.1)),
            }));
        }
        let mut k: usize = 0;
        while k < 512
            invariant
                self.wf(),
                ts < nt < self@.addrs.len(),
                n0 < self@.addrs.len(),
                depth <= 3,
                k <= 512,
                self@.addrs.len() + frames@.len() == sum,
                sum * 512 <= usize::MAX,
                clone_entries(self@, ts as int, nt as int, depth as nat, k as nat, frames@) == total,
                clone_table(old(self)@, src, depth as nat, old(frames)@) == (match total {
                    Err(x) => Err(x),
                    Ok(q) => Ok((q.0, a, q.1)),
                }),
            decreases 512 - k,
        {
            proof {
                lemma_slot(ts as int, k as int, self@.addrs.len() as int);
                lemma_slot(nt as int, k as int, self@.addrs.len() as int);
            }
            let len = self.entries.len();
            assert(ts * 512 < len && nt * 512 < len);
            let e = PageEntry(self.entries[ts * 512 + k]);
            if !e.is_present() {
            } else if depth == 0 {
                self.entries.set(nt * 512 + k, e.0);
            } else {
                let ghost vk = self@;
                let ghost fk = frames@;
                proof {
                    assert(e.0 == entry_of(vk, ts as int, k as int));
                    assert((depth - 1) as u8 as nat == (depth - 1) as nat);
                }
                let child = match self.clone_from(e.0 & !0xFFF, depth - 1, frames) {
                    Ok(c) => c,
                    Err(x) => {
                        proof {
                            assert(clone_table(vk, frame_of(e.0), (depth - 1) as nat, fk) == Err::<
                                (TablesView, u64, Seq<u64>),
                                MapError,
                            >(x));
                            assert(clone_entries(vk, ts as int, nt as int, depth as nat, k as nat, fk) == Err::<
                                (TablesView, Seq<u64>),
                                MapError,
                            >(x));
                        }
                        return Err(x);
                    },
                };
                proof {
                    lemma_slot(nt as int, k as int, self@.addrs.len() as int);
                }
                let len2 = self.entries.len();
                assert(nt * 512 < len2);
                let mut pe = PageEntry(0);
                pe.set_frame_addr(child);
                proof {
                    lemma_entry_bits(0, 0, 0, 0, 0);
                }
                pe.set_flags(PageEntryFlags::from_bits_truncate(PRESENT | WRITABLE));
                self.entries.set(nt * 512 + k, pe.0);
            }
            k = k + 1;
        }
        Ok(a)
    }

    /// Copies the hierarchy whose top table is at `src` (see
    /// [`clone_table`]) and gives the address of the copy's top table;
    /// nothing changes where that fails.
    pub(crate) fn clone_hierarchy(&mut self, src: u64, frames: &mut Vec<u64>) -> (r: Result<u64, MapError>)
        requires
            old(self).wf(),
            (old(self)@.addrs.len() + old(frames)@.len()) * 512 <= usize::MAX,
        ensures
            final(self).wf(),
            match clone_table(old(self)@, src, 3, old(frames)@) {
                Ok(q) => r == Ok::<u64, MapError>(q.1) && final(self)@ == q.0 && final(frames)@ == q.2,
                Err(x) => r == Err::<u64, MapError>(x) && final(self)@ == old(self)@ && final(frames)@ == old(frames)@,
            },
    {
        let saved_addrs = copy_u64s(&self.addrs);
        let saved_entries = copy_u64s(&self.entries);
        let saved_frames = copy_u64s(frames);
        match self.clone_from(src, 3, frames) {
            Ok(a) => Ok(a),
            Err(x) => {
                self.addrs = saved_addrs;
                self.entries = saved_entries;
                *frames = saved_frames;
                Err(x)
            },
        }
    }
}

} // verus!
