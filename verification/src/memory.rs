//! Flat byte-addressable store with big-endian word and long-word access.
//!
//! The address space is 24 bits wide (16 MiB). A word is two consecutive
//! bytes, most significant first; a long word is two consecutive words,
//! most significant first. Out-of-range addresses are excluded by
//! precondition here; the CPU checks every address before it touches
//! memory and reports a fault instead of faulting itself.

use vstd::prelude::*;

verus! {

/// Size of the address space in bytes: 24 address bits, 16 MiB.
pub const MEM_SIZE: usize = 0x100_0000;

pub struct Memory {
    data: Vec<u8>,
}

impl View for Memory {
    type V = Seq<u8>;

    closed spec fn view(&self) -> Seq<u8> {
        self.data@
    }
}

/// The 16-bit word stored big-endian at byte offset `a`.
pub open spec fn word_at(m: Seq<u8>, a: int) -> u16 {
    ((m[a] as u16) << 8) | (m[a + 1] as u16)
}

/// The 32-bit long word stored as two big-endian words at byte offset `a`.
pub open spec fn long_at(m: Seq<u8>, a: int) -> u32 {
    ((word_at(m, a) as u32) << 16) | (word_at(m, a + 2) as u32)
}

/// The byte sequence `m` after a big-endian word store at byte offset `a`.
pub open spec fn with_word(m: Seq<u8>, a: int, value: u16) -> Seq<u8> {
    m.update(a, (value >> 8) as u8).update(a + 1, (value & 0xFF) as u8)
}

/// The byte sequence `m` after a big-endian long-word store at byte offset `a`.
pub open spec fn with_long(m: Seq<u8>, a: int, value: u32) -> Seq<u8> {
    with_word(with_word(m, a, (value >> 16) as u16), a + 2, (value & 0xFFFF) as u16)
}

impl Memory {
    /// Every memory value spans the whole 16 MiB address space.
    #[verifier::type_invariant]
    pub open spec fn wf(&self) -> bool {
        self@.len() == MEM_SIZE
    }

    /// A fresh memory image, all bytes zero.
    pub fn new() -> (m: Memory)
        ensures
            m@.len() == MEM_SIZE,
            forall|i: int| 0 <= i < MEM_SIZE ==> m@[i] == 0u8,
    {
        let data: Vec<u8> = vec![0u8; MEM_SIZE];
        Memory { data }
    }

    pub fn read_byte(&self, address: u32) -> (b: u8)
        requires
            address < MEM_SIZE,
        ensures
            b == self@[address as int],
    {
        proof {
            use_type_invariant(self);
        }
        self.data[address as usize]
    }

    pub fn write_byte(&mut self, address: u32, value: u8)
        requires
            address < MEM_SIZE,
        ensures
            final(self)@ == old(self)@.update(address as int, value),
    {
        proof {
            use_type_invariant(&*self);
        }
        self.data[address as usize] = value;
    }

    pub fn read_word(&self, address: u32) -> (w: u16)
        requires
            address + 1 < MEM_SIZE,
        ensures
            w == word_at(self@, address as int),
    {
        proof {
            use_type_invariant(self);
        }
        let high_byte = self.data[address as usize] as u16;
        let low_byte = self.data[(address + 1) as usize] as u16;
        (high_byte << 8) | low_byte
    }

    pub fn write_word(&mut self, address: u32, value: u16)
        requires
            address + 1 < MEM_SIZE,
        ensures
            final(self)@ == with_word(old(self)@, address as int, value),
            word_at(final(self)@, address as int) == value,
    {
        proof {
            use_type_invariant(&*self);
        }
        self.data[address as usize] = (value >> 8) as u8;
        self.data[(address + 1) as usize] = (value & 0xFF) as u8;
        proof {
            lemma_word_store_fetch(old(self)@, address as int, value);
        }
    }

    pub fn read_long(&self, address: u32) -> (l: u32)
        requires
            address + 3 < MEM_SIZE,
        ensures
            l == long_at(self@, address as int),
    {
        let high_word = self.read_word(address) as u32;
        let low_word = self.read_word(address + 2) as u32;
        (high_word << 16) | low_word
    }

    pub fn write_long(&mut self, address: u32, value: u32)
        requires
            address + 3 < MEM_SIZE,
        ensures
            final(self)@ == with_long(old(self)@, address as int, value),
            word_at(final(self)@, address as int) == (value >> 16) as u16,
            word_at(final(self)@, address + 2) == (value & 0xFFFF) as u16,
            long_at(final(self)@, address as int) == value,
    {
        proof {
            use_type_invariant(&*self);
        }
        self.write_word(address, #[verifier::truncate] ((value >> 16) as u16));
        self.write_word(address + 2, #[verifier::truncate] ((value & 0xFFFF) as u16));
        proof {
            lemma_long_store_fetch(old(self)@, address as int, value);
        }
    }
}

/// Storing a word and reading it back at the same offset returns the same
/// word, and the two surrounding byte updates touch only offsets `a` and
/// `a + 1`.
pub proof fn lemma_word_store_fetch(m: Seq<u8>, a: int, value: u16)
    requires
        0 <= a,
        a + 1 < m.len(),
    ensures
        word_at(with_word(m, a, value), a) == value,
        with_word(m, a, value).len() == m.len(),
        forall|i: int| 0 <= i < m.len() && i != a && i != a + 1 ==> with_word(m, a, value)[i] == m[i],
{
    let hi = (value >> 8) as u8;
    let lo = (value & 0xFF) as u8;
    assert(((hi as u16) << 8) | (lo as u16) == value) by (bit_vector)
        requires
            hi == (value >> 8) as u8,
            lo == (value & 0xFF) as u8,
    ;
}

/// Storing a long word stores its two big-endian half-words at `a` and
/// `a + 2`, and reading the long word back returns the original value.
pub proof fn lemma_long_store_fetch(m: Seq<u8>, a: int, value: u32)
    requires
        0 <= a,
        a + 3 < m.len(),
    ensures
        word_at(with_long(m, a, value), a) == (value >> 16) as u16,
        word_at(with_long(m, a, value), a + 2) == (value & 0xFFFF) as u16,
        long_at(with_long(m, a, value), a) == value,
        with_long(m, a, value).len() == m.len(),
        forall|i: int| 0 <= i < m.len() && !(a <= i < a + 4) ==> with_long(m, a, value)[i] == m[i],
{
    let hi = (value >> 16) as u16;
    let lo = (value & 0xFFFF) as u16;
    lemma_word_store_fetch(m, a, hi);
    lemma_word_store_fetch(with_word(m, a, hi), a + 2, lo);
    assert(word_at(with_long(m, a, value), a) == hi);
    assert(((hi as u32) << 16) | (lo as u32) == value) by (bit_vector)
        requires
            hi == (value >> 16) as u16,
            lo == (value & 0xFFFF) as u16,
    ;
}

} // verus!
