//! Bytes inside the machine words by which a traced process is read and written.

use vstd::arithmetic::power::pow;
use vstd::prelude::*;

verus! {

/// The number of bytes in a machine word.
pub open spec fn word_bytes() -> int {
    usize::BITS as int / 8
}

/// Byte `i` of a little-endian word, counted from the lowest address.
pub open spec fn byte_of(word: usize, i: int) -> u8 {
    ((word >> ((8 * i) as usize)) & 0xff) as u8
}

/// The word boundary at or below `addr`.
pub open spec fn word_start(addr: usize) -> usize {
    (addr - addr as int % word_bytes()) as usize
}

/// The place of `addr` inside its word.
pub open spec fn word_offset(addr: usize) -> int {
    addr as int % word_bytes()
}

/// `word` with byte `offset` replaced by `val`.
pub open spec fn replace_byte(word: usize, offset: int, val: u8) -> usize {
    (word & !(0xffusize << ((8 * offset) as usize))) | ((val as usize) << ((8 * offset) as usize))
}

/// Aligns an address down to the start of its machine word.
pub fn align_addr_to_word(addr: usize) -> (aligned: usize)
    ensures
        aligned == word_start(addr),
        addr - aligned == word_offset(addr),
        aligned as int % word_bytes() == 0,
        aligned <= addr < aligned + word_bytes(),
{
    broadcast use vstd::layout::layout_of_primitives;

    let size: usize = std::mem::size_of::<usize>();
    let mask: usize = size - 1;
    let aligned: usize = addr & !mask;
    proof {
        if usize::BITS == 32 {
            assert(addr & !3usize <= addr && addr - (addr & !3usize) < 4 && (addr & !3usize) % 4
                == 0) by (bit_vector);
            assert(word_bytes() == 4);
        } else {
            assert(addr & !7usize <= addr && addr - (addr & !7usize) < 8 && (addr & !7usize) % 8
                == 0) by (bit_vector);
            assert(word_bytes() == 8);
        }
    }
    aligned
}

/// Byte `offset` of `word`.
pub fn byte_at(word: usize, offset: usize) -> (byte: u8)
    requires
        offset < word_bytes(),
    ensures
        byte == byte_of(word, offset as int),
{
    let shift: usize = 8 * offset;
    ((word >> shift) & 0xff) as u8
}

/// Puts `val` in the place of byte `offset` of `word`.
pub fn with_byte(word: usize, offset: usize, val: u8) -> (updated: usize)
    requires
        offset < word_bytes(),
    ensures
        updated == replace_byte(word, offset as int, val),
        forall|i: int|
            0 <= i < word_bytes() ==> #[trigger] byte_of(updated, i) == if i == offset {
                val
            } else {
                byte_of(word, i)
            },
{
    let shift: usize = 8 * offset;
    let masked: usize = word & !(0xffusize << shift);
    let updated: usize = masked | ((val as usize) << shift);
    assert(updated == replace_byte(word, offset as int, val));
    proof {
        law_replace_byte(word, offset as int, val);
    }
    updated
}

/// Replacing a byte of a word changes that byte to the new value and no other byte.
pub proof fn law_replace_byte(word: usize, offset: int, val: u8)
    requires
        0 <= offset < word_bytes(),
    ensures
        forall|i: int|
            0 <= i < word_bytes() ==> #[trigger] byte_of(replace_byte(word, offset, val), i)
                == if i == offset {
                val
            } else {
                byte_of(word, i)
            },
{
    let updated = replace_byte(word, offset, val);
    assert forall|i: int| 0 <= i < word_bytes() implies #[trigger] byte_of(updated, i) == if i
        == offset {
        val
    } else {
        byte_of(word, i)
    } by {
        lemma_insert_byte(word, updated, (8 * offset) as usize, (8 * i) as usize, val);
    }
}

/// Putting back the byte that was replaced gives the word that was there before.
pub proof fn law_replace_byte_undone(word: usize, offset: int, val: u8)
    requires
        0 <= offset < word_bytes(),
    ensures
        replace_byte(replace_byte(word, offset, val), offset, byte_of(word, offset)) == word,
{
    let shift = (8 * offset) as usize;
    assert({
        let updated = (word & !(0xffusize << shift)) | ((val as usize) << shift);
        let old_byte = ((word >> shift) & 0xff) as u8;
        ((updated & !(0xffusize << shift)) | ((old_byte as usize) << shift)) == word
    }) by (bit_vector)
        requires
            shift < usize::BITS,
    ;
}

/// Writing a byte at bit position `shift` changes the byte there and no other.
proof fn lemma_insert_byte(word: usize, updated: usize, shift: usize, s: usize, val: u8)
    by (bit_vector)
    requires
        shift < usize::BITS,
        s < usize::BITS,
        shift % 8 == 0,
        s % 8 == 0,
        updated == (word & !(0xffusize << shift)) | ((val as usize) << shift),
    ensures
        ((updated >> s) & 0xff) as u8 == if s == shift {
            val
        } else {
            ((word >> s) & 0xff) as u8
        },
{
}

/// The word around an address begins at a multiple of the word size, and the address lies in it.
pub proof fn law_word_is_aligned_around_address(addr: usize)
    ensures
        ({
            let size = usize::BITS as int / 8;
            &&& word_start(addr) as int % size == 0
            &&& word_start(addr) <= addr < word_start(addr) + size
            &&& word_offset(addr) == addr - word_start(addr)
        }),
{
    assert(word_bytes() == 4 || word_bytes() == 8);
    if word_bytes() == 4 {
        assert((addr - addr as int % 4) % 4 == 0);
    } else {
        assert((addr - addr as int % 8) % 8 == 0);
    }
}

/// Byte `i` of a word is its digit at place `i` in base 256, the lowest first.
pub proof fn law_bytes_are_the_digits_of_a_word(word: usize, i: int)
    requires
        0 <= i < usize::BITS as int / 8,
    ensures
        byte_of(word, i) == (word as int / pow(256, i as nat)) % 256,
{
    let shift = (8 * i) as usize;
    let shifted = word >> shift;
    assert((shifted & 0xff) as u8 == shifted % 256) by (bit_vector);
    vstd::bits::lemma_usize_shr_is_div(word, shift);
    vstd::arithmetic::power2::lemma_pow2(shift as nat);
    vstd::arithmetic::power::lemma_pow_multiplies(2, 8, i as nat);
    assert(pow(2, 8) == 256) by {
        reveal(pow);
        reveal_with_fuel(pow, 9);
    }
}

} // verus!
