//! A fixed-size sequence of bits, packed eight to a byte.

use vstd::prelude::*;

verus! {

/// The error of an access at `index` into a bit array of `size` bits,
/// where `index >= size`.
#[derive(Debug, Clone, Copy, PartialEq, Eq, Structural)]
pub struct OutOfRange {
    pub index: usize,
    pub size: usize,
}

impl OutOfRange {
    /// A short description of the error.
    pub fn message(&self) -> (r: &'static str)
        ensures
            r@ == "Index out of bounds"@,
    {
        "Index out of bounds"
    }
}

/// Whether bit `offset` of `byte` is set, bit 0 being the least significant.
pub open spec fn byte_bit(byte: u8, offset: u8) -> bool {
    byte & (1u8 << offset) != 0
}

/// The number of bytes that hold `bits` bits: `bits / 8`, rounded up.
pub open spec fn bytes_for(bits: nat) -> nat {
    (bits + 7) / 8
}

/// The characters that show `bits`: `'1'` for a set bit, `'0'` for a clear
/// one, in index order.
pub open spec fn rendered(bits: Seq<bool>) -> Seq<char> {
    Seq::new(
        bits.len(),
        |i: int|
            if bits[i] {
                '1'
            } else {
                '0'
            },
    )
}

/// A bit array that stores its bits densely in bytes.
///
/// Its view is the sequence of its bits. Bit `i` lives in byte `i / 8` at
/// offset `i % 8`; the bits of the last byte beyond the array's size are
/// never read or written.
#[derive(Debug)]
pub struct BitArray {
    data: Vec<u8>,
    size: usize,
}

impl View for BitArray {
    type V = Seq<bool>;

    closed spec fn view(&self) -> Seq<bool> {
        Seq::new(self.size as nat, |i: int| byte_bit(self.data@[i / 8], (i % 8) as u8))
    }
}

proof fn lemma_byte_bit_update(b: u8, o: u8, p: u8)
    requires
        o < 8,
        p < 8,
    ensures
        byte_bit(b | (1u8 << o), p) == (p == o || byte_bit(b, p)),
        byte_bit(b & !(1u8 << o), p) == (p != o && byte_bit(b, p)),
{
    assert(((b | (1u8 << o)) & (1u8 << p) != 0) == (p == o || b & (1u8 << p) != 0))
        by (bit_vector)
        requires
            o < 8,
            p < 8,
    ;
    assert(((b & !(1u8 << o)) & (1u8 << p) != 0) == (p != o && b & (1u8 << p) != 0))
        by (bit_vector)
        requires
            o < 8,
            p < 8,
    ;
}

proof fn lemma_zero_byte(p: u8)
    requires
        p < 8,
    ensures
        !byte_bit(0u8, p),
{
    assert(0u8 & (1u8 << p) == 0) by (bit_vector);
}

impl BitArray {
    /// The storage is exactly as long as the bits need, and the bits of the
    /// last byte that lie beyond the array's size are clear.
    pub closed spec fn wf(&self) -> bool {
        &&& self.data@.len() == bytes_for(self.size as nat)
        &&& forall|j: int|
            self.size <= j < 8 * self.data@.len() ==> !byte_bit(
                #[trigger] self.data@[j / 8],
                (j % 8) as u8,
            )
    }

    /// The number of bits.
    pub closed spec fn spec_len(&self) -> nat {
        self.size as nat
    }

    /// The number of bytes of storage.
    pub closed spec fn byte_len(&self) -> nat {
        self.data@.len()
    }

    /// The view is as long as the array, and the storage as long as that
    /// many bits need.
    pub proof fn lemma_view_len(&self)
        ensures
            self@.len() == self.spec_len(),
            self.wf() ==> self.byte_len() == bytes_for(self.spec_len()),
    {
    }

    /// Creates an array of `size` bits, all clear. A size of zero gives an
    /// empty array.
    pub fn new(size: usize) -> (r: BitArray)
        ensures
            r.wf(),
            r.spec_len() == size,
            r.byte_len() == bytes_for(size as nat),
            r@ =~= Seq::new(size as nat, |i: int| false),
    {
        let num_bytes: usize = if size % 8 == 0 {
            size / 8
        } else {
            size / 8 + 1
        };
        let r = BitArray { data: vec![0u8; num_bytes], size };
        proof {
            assert forall|i: int| 0 <= i < 8 * num_bytes implies !byte_bit(
                #[trigger] r.data@[i / 8],
                (i % 8) as u8,
            ) by {
                lemma_zero_byte((i % 8) as u8);
            }
        }
        r
    }

    /// The number of bits.
    pub fn len(&self) -> (r: usize)
        ensures
            r == self.spec_len(),
            r == self@.len(),
    {
        self.size
    }

    /// Reads the bit at `index`, or reports that `index` is past the end.
    pub fn get(&self, index: usize) -> (r: Result<bool, OutOfRange>)
        requires
            self.wf(),
        ensures
            index < self@.len() ==> r == Ok::<bool, OutOfRange>(self@[index as int]),
            index >= self@.len() ==> r == Err::<bool, OutOfRange>(
                OutOfRange { index, size: self@.len() as usize },
            ),
    {
        if index >= self.size {
            return Err(OutOfRange { index, size: self.size });
        }
        let byte_index: usize = index / 8;
        let bit_offset: u8 = (index % 8) as u8;
        let mask: u8 = 1u8 << bit_offset;
        Ok((self.data[byte_index] & mask) != 0)
    }

    /// Renders the bits as text for diagnostics: one character per bit in
    /// index order, `'1'` for a set bit and `'0'` for a clear one.
    pub fn to_string(&self) -> (r: String)
        requires
            self.wf(),
        ensures
            r@ == rendered(self@),
    {
        let mut text = String::new();
        let mut i: usize = 0;
        while i < self.size
            invariant
                self.wf(),
                i <= self.size,
                text@ == rendered(self@.subrange(0, i as int)),
            decreases self.size - i,
        {
            if let Ok(bit) = self.get(i) {
                text.push(
                    if bit {
                        '1'
                    } else {
                        '0'
                    },
                );
            }
            i += 1;
            assert(text@ =~= rendered(self@.subrange(0, i as int)));
        }
        assert(self@.subrange(0, self.size as int) =~= self@);
        text
    }

    /// Writes `value` to the bit at `index` and leaves every other bit as it
    /// was, or reports that `index` is past the end and changes nothing.
    pub fn set(&mut self, index: usize, value: bool) -> (r: Result<(), OutOfRange>)
        requires
            old(self).wf(),
        ensures
            final(self).wf(),
            final(self).spec_len() == old(self).spec_len(),
            final(self).byte_len() == old(self).byte_len(),
            index < old(self)@.len() ==> r == Ok::<(), OutOfRange>(()) && final(self)@ == old(
                self,
            )@.update(index as int, value),
            index >= old(self)@.len() ==> r == Err::<(), OutOfRange>(
                OutOfRange { index, size: old(self)@.len() as usize },
            ) && final(self)@ == old(self)@,
    {
        if index >= self.size {
            return Err(OutOfRange { index, size: self.size });
        }
        let byte_index: usize = index / 8;
        let bit_offset: u8 = (index % 8) as u8;
        let mask: u8 = 1u8 << bit_offset;
        let byte: u8 = self.data[byte_index];
        let updated: u8 = if value {
            byte | mask
        } else {
            byte & !mask
        };
        let ghost before = self@;
        self.data[byte_index] = updated;
        proof {
            assert forall|j: int| self.size <= j < 8 * self.data@.len() implies !byte_bit(
                #[trigger] self.data@[j / 8],
                (j % 8) as u8,
            ) by {
                assert(!byte_bit(old(self).data@[j / 8], (j % 8) as u8));
                if j / 8 == byte_index {
                    lemma_byte_bit_update(byte, bit_offset, (j % 8) as u8);
                }
            }
            assert forall|j: int| 0 <= j < self.size implies #[trigger] self@[j] == before.update(
                index as int,
                value,
            )[j] by {
                if j / 8 == byte_index {
                    lemma_byte_bit_update(byte, bit_offset, (j % 8) as u8);
                }
            }
            assert(self@ =~= before.update(index as int, value));
        }
        Ok(())
    }
}

} // verus!
