use vstd::prelude::*;

verus! {

/// The size of a sector of the disk, in bytes.
pub const SECTOR_SIZE: usize = 512;

/// The little-endian 16-bit value of the bytes of `s` at `off`.
pub open spec fn le16(s: Seq<u8>, off: int) -> int {
    s[off] + s[off + 1] * 256
}

/// The little-endian 32-bit value of the bytes of `s` at `off`.
pub open spec fn le32(s: Seq<u8>, off: int) -> int {
    le16(s, off) + le16(s, off + 2) * 65536
}

/// The little-endian 16-bit value of the bytes of `b` at `off`.
pub fn read_u16(b: &[u8], off: usize) -> (v: u16)
    requires
        off + 2 <= b@.len(),
    ensures
        v == le16(b@, off as int),
{
    (b[off] as u16) + (b[off + 1] as u16) * 256
}

/// The little-endian 32-bit value of the bytes of `b` at `off`.
pub fn read_u32(b: &[u8], off: usize) -> (v: u32)
    requires
        off + 4 <= b@.len(),
    ensures
        v == le32(b@, off as int),
{
    let _len = b.len();
    (read_u16(b, off) as u32) + (read_u16(b, off + 2) as u32) * 65536
}

/// The bytes of `v` in little-endian order.
pub open spec fn le32_bytes(v: u32) -> Seq<u8> {
    seq![(v % 256) as u8, ((v / 256) % 256) as u8, ((v / 65536) % 256) as u8, (v / 16777216) as u8]
}

/// Reading back the bytes of a value gives the value.
pub proof fn lemma_le32_roundtrip(v: u32, s: Seq<u8>, off: int)
    requires
        0 <= off,
        off + 4 <= s.len(),
        s.subrange(off, off + 4) == le32_bytes(v),
    ensures
        le32(s, off) == v,
{
    assert(s[off] == le32_bytes(v)[0]);
    assert(s[off + 1] == le32_bytes(v)[1]);
    assert(s[off + 2] == le32_bytes(v)[2]);
    assert(s[off + 3] == le32_bytes(v)[3]);
    assert((v % 256) + ((v / 256) % 256) * 256 + (((v / 65536) % 256) + (v / 16777216) * 256)
        * 65536 == v) by (nonlinear_arith);
}

/// A disk as the bytes of its sectors of 512 bytes.
pub struct Disk {
    data: Vec<u8>,
}

impl View for Disk {
    type V = Seq<u8>;

    /// The bytes of the disk.
    closed spec fn view(&self) -> Seq<u8> {
        self.data@
    }
}

impl Disk {
    /// A disk holding `data`.
    pub fn new(data: Vec<u8>) -> (d: Disk)
        ensures
            d@ == data@,
    {
        Disk { data }
    }

    /// The number of bytes of the disk.
    pub fn len(&self) -> (n: usize)
        ensures
            n == self@.len(),
    {
        self.data.len()
    }

    /// The bytes of the disk.
    pub fn into_bytes(self) -> (data: Vec<u8>)
        ensures
            data@ == self@,
    {
        self.data
    }

    /// The bytes of sector `lba`.
    pub fn read_sector(&self, lba: u64) -> (buf: Vec<u8>)
        requires
            (lba + 1) * SECTOR_SIZE <= self@.len(),
        ensures
            buf@ == self@.subrange(lba * SECTOR_SIZE, lba * SECTOR_SIZE + SECTOR_SIZE),
    {
        let _len = self.data.len();
        let start = (lba as usize) * SECTOR_SIZE;
        let mut buf: Vec<u8> = Vec::new();
        let mut i: usize = 0;
        while i < SECTOR_SIZE
            invariant
                start == lba * SECTOR_SIZE,
                start + SECTOR_SIZE <= self@.len(),
                i <= SECTOR_SIZE,
                buf@ == self@.subrange(start as int, start + i),
            decreases SECTOR_SIZE - i,
        {
            buf.push(self.data[start + i]);
            i = i + 1;
        }
        buf
    }

    /// Writes `buf` to sector `lba`.
    pub fn write_sector(&mut self, lba: u64, buf: &Vec<u8>)
        requires
            (lba + 1) * SECTOR_SIZE <= old(self)@.len(),
            buf@.len() == SECTOR_SIZE,
        ensures
            final(self)@ == old(self)@.subrange(0, lba * SECTOR_SIZE) + buf@ + old(self)@.subrange(
                lba * SECTOR_SIZE + SECTOR_SIZE,
                old(self)@.len() as int,
            ),
    {
        let _len = self.data.len();
        let start = (lba as usize) * SECTOR_SIZE;
        let ghost d0 = self@;
        let mut i: usize = 0;
        while i < SECTOR_SIZE
            invariant
                start == lba * SECTOR_SIZE,
                start + SECTOR_SIZE <= d0.len(),
                buf@.len() == SECTOR_SIZE,
                i <= SECTOR_SIZE,
                self@.len() == d0.len(),
                forall|j: int|
                    0 <= j < d0.len() ==> #[trigger] self@[j] == if start <= j < start + i {
                        buf@[j - start]
                    } else {
                        d0[j]
                    },
            decreases SECTOR_SIZE - i,
        {
            self.data.set(start + i, buf[i]);
            i = i + 1;
        }
        assert(self@ =~= d0.subrange(0, start as int) + buf@ + d0.subrange(
            start + SECTOR_SIZE,
            d0.len() as int,
        ));
    }
}

} // verus!
