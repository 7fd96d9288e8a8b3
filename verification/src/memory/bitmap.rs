use vstd::prelude::*;

verus! {

/// Whether bit `i` of `bytes` is set; bits are numbered from the most
/// significant bit of byte 0.
pub open spec fn bit_of(bytes: Seq<u8>, i: int) -> bool {
    bytes[i / 8] & (0x80u8 >> ((i % 8) as u8)) != 0
}

/// A compact array of bits kept in a buffer of bytes, one bit per page of
/// physical memory in the page allocator.
pub struct Bitmap {
    pub(crate) buffer: Vec<u8>,
    pub(crate) size: usize,
}

proof fn lemma_bit_update(byte: u8, k: u8, j: u8, value: bool)
    requires
        k < 8,
        j < 8,
    ensures
        ({
            let mask = 0x80u8 >> k;
            let cleared = byte & !mask;
            let updated = if value { cleared | mask } else { cleared };
            &&& (updated & (0x80u8 >> k) != 0) == value
            &&& j != k ==> ((updated & (0x80u8 >> j) != 0) == (byte & (0x80u8 >> j) != 0))
        }),
{
    let mask = 0x80u8 >> k;
    let cleared = byte & !mask;
    assert((cleared | mask) & (0x80u8 >> k) != 0) by (bit_vector)
        requires
            mask == 0x80u8 >> k,
            cleared == byte & !mask,
            k < 8,
    ;
    assert(cleared & (0x80u8 >> k) == 0) by (bit_vector)
        requires
            mask == 0x80u8 >> k,
            cleared == byte & !mask,
            k < 8,
    ;
    assert(j != k ==> (((cleared | mask) & (0x80u8 >> j) != 0) == (byte & (0x80u8 >> j) != 0)))
        by (bit_vector)
        requires
            mask == 0x80u8 >> k,
            cleared == byte & !mask,
            k < 8,
            j < 8,
    ;
    assert(j != k ==> ((cleared & (0x80u8 >> j) != 0) == (byte & (0x80u8 >> j) != 0)))
        by (bit_vector)
        requires
            mask == 0x80u8 >> k,
            cleared == byte & !mask,
            k < 8,
            j < 8,
    ;
}

impl View for Bitmap {
    type V = Seq<bool>;

    /// The bits, in order.
    closed spec fn view(&self) -> Seq<bool> {
        Seq::new((self.size * 8) as nat, |i: int| bit_of(self.buffer@, i))
    }
}

impl Bitmap {
    /// The buffer holds `size` bytes, and the bits can be numbered by a `usize`.
    pub closed spec fn wf(&self) -> bool {
        &&& self.buffer@.len() == self.size
        &&& self.size * 8 <= usize::MAX
    }

    /// The number of bytes of the buffer.
    pub closed spec fn spec_size(&self) -> usize {
        self.size
    }

    /// A bitmap over `buffer`, whose `size` bytes hold `8 * size` bits.
    pub fn new(buffer: Vec<u8>, size: usize) -> (b: Bitmap)
        requires
            buffer@.len() == size,
            size * 8 <= usize::MAX,
        ensures
            b.wf(),
            b.spec_size() == size,
            b@.len() == size * 8,
            forall|i: int| 0 <= i < size * 8 ==> b@[i] == bit_of(buffer@, i),
    {
        Bitmap { buffer, size }
    }

    /// The number of bytes of the buffer.
    pub fn size(&self) -> (s: usize)
        ensures
            s == self.spec_size(),
    {
        self.size
    }

    /// The bit at `index`; `false` when `index` is out of bounds.
    pub fn get(&self, index: usize) -> (value: bool)
        requires
            self.wf(),
        ensures
            value == (index < self@.len() && self@[index as int]),
    {
        if index >= self.size * 8 {
            return false;
        }
        let byte_index = index / 8;
        let bit_index = index % 8;
        let bit_indexer: u8 = 0x80u8 >> (bit_index as u8);
        (self.buffer[byte_index] & bit_indexer) != 0
    }

    /// Sets the bit at `index` to `value`; returns `false`, and changes nothing,
    /// when `index` is out of bounds.
    pub fn set(&mut self, index: usize, value: bool) -> (done: bool)
        requires
            old(self).wf(),
        ensures
            final(self).wf(),
            final(self).spec_size() == old(self).spec_size(),
            done == (index < old(self)@.len()),
            done ==> final(self)@ == old(self)@.update(index as int, value),
            !done ==> final(self)@ == old(self)@,
    {
        if index >= self.size * 8 {
            return false;
        }
        let byte_index = index / 8;
        let bit_index = index % 8;
        let bit_indexer: u8 = 0x80u8 >> (bit_index as u8);
        let ghost old_bytes = self.buffer@;
        let old_byte = self.buffer[byte_index];
        let mut new_byte = old_byte & !bit_indexer;
        if value {
            new_byte = new_byte | bit_indexer;
        }
        self.buffer.set(byte_index, new_byte);
        proof {
            assert forall|j: int| 0 <= j < self.size * 8 implies #[trigger] self@[j] == old(self)@.update(index as int, value)[j] by {
                lemma_bit_update(old_byte, bit_index as u8, (j % 8) as u8, value);
                if j / 8 != byte_index as int {
                    assert(self.buffer@[j / 8] == old_bytes[j / 8]);
                }
            }
            assert(self@ =~= old(self)@.update(index as int, value));
        }
        true
    }
}

} // verus!
