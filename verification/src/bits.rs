//! Facts about bitwise operations and integer reinterpretation, each proved
//! once by bit-blasting and used wherever a field is extracted, a value is
//! aligned, or a value changes width.

use vstd::prelude::*;

verus! {

/// A byte: a mask bounds it, its high nibble is at most 15, and a shift
/// right never grows it.
pub proof fn lemma_u8_bits(x: u8, m: u8)
    by (bit_vector)
    ensures
        x & m <= m,
        x & m <= x,
        x >> 4u8 <= 15,
        m < 8 ==> x >> m <= x,
        x.wrapping_add(1) & 7 == (x as int + 1) % 8,
{
}

/// A halfword: a mask bounds it; setting bits keeps the bits it had and
/// sets them; a zero shift or a zero OR changes nothing; two bytes join into
/// the halfword whose low and high bytes they are.
pub proof fn lemma_u16_bits(x: u16, m: u16)
    by (bit_vector)
    ensures
        x & m <= m,
        x & m <= x,
        (x | m) & x == x,
        (x | m) & m == m,
        (x | m) | m == x | m,
        x & x == x,
        x | 0 == x,
        x >> 0u16 == x,
        x < 256 && m < 256 ==> ((x | (m << 8u16)) as u32) == (x as u32) | ((m as u32) << 8u32),
{
}

/// A word: a mask bounds it; setting bits twice is setting them once; a
/// zero shift changes nothing; the high 24 bits are below 2^24; the low five
/// bits are the remainder modulo 32; clearing bit 0 lowers it by at most
/// one; truncating to a byte or halfword keeps exactly its low bits; and
/// 1 shifted by less than 32 is positive.
pub proof fn lemma_u32_bits(x: u32, m: u32)
    by (bit_vector)
    ensures
        x & m <= m,
        x & m <= x,
        (x | m) | m == x | m,
        (x | m) & m == m,
        x >> 0u32 == x,
        x >> 8u32 < 0x100_0000,
        x & 31 == x % 32,
        (x & !1u32) as int >= x - 1,
        x < 0x1_0000 ==> x & 0xFFFF == x,
        ((x & 0xFF) as u8) as u32 == x & 0xFF,
        ((x & 0xFFFF) as u16) as u32 == x & 0xFFFF,
        (x as u8) as u32 == x & 0xFF,
        (x as u16) as u32 == x & 0xFFFF,
        m < 32 ==> 1u32 << m >= 1,
        m < 32 ==> x >> m <= x,
{
}

/// The low word of a doubleword is its remainder modulo 2^32.
pub proof fn lemma_u64_bits(x: u64)
    by (bit_vector)
    ensures
        x & 0xFFFF_FFFF == x % 0x1_0000_0000,
{
}

/// A 128-bit value: a mask bounds it, and 1 shifted by less than 127 is
/// positive.
pub proof fn lemma_u128_bits(x: u128, m: u128)
    by (bit_vector)
    ensures
        x & m <= m,
        m < 127 ==> 1u128 << m >= 1,
{
}

/// A masked index is at most the mask, and masking with 2^n - 1 is the
/// remainder modulo 2^n.
pub proof fn lemma_usize_bits(x: usize, m: usize)
    by (bit_vector)
    ensures
        x & m <= m,
        x & 0xFF == x % 256,
        x & 0x1FF == x % 512,
{
}

/// A signed value masked with a non-negative mask lies between 0 and the
/// mask, and a small one masked to its low byte is its remainder modulo
/// 256.
pub proof fn lemma_i32_mask(x: i32, m: i32)
    by (bit_vector)
    ensures
        m >= 0 ==> 0 <= x & m <= m,
        -256 < x < 256 ==> (x & 0xFF) as int == if x >= 0 { x as int } else { x + 256 },
{
}

/// Reinterpreting a signed byte as unsigned and back gives it back.
pub proof fn lemma_i8_reinterpret(x: i8)
    by (bit_vector)
    ensures
        (x as u8) as i8 == x,
{
}

/// Reinterpreting a signed word as unsigned and back gives it back.
pub proof fn lemma_i32_reinterpret(x: i32)
    by (bit_vector)
    ensures
        (x as u32) as i32 == x,
{
}

/// Reinterpreting a signed doubleword as unsigned and back gives it back.
pub proof fn lemma_i64_reinterpret(x: i64)
    by (bit_vector)
    ensures
        (x as u64) as i64 == x,
{
}

/// The mode field of a status word: masking it twice is masking it once; a
/// word whose bit 4 is set keeps that bit when it is set again; each
/// processor mode number is its own mode field; and the words built on
/// exception entry (IRQ or supervisor mode, IRQs masked) and on entering
/// system mode hold that mode, with bit 4 set.
pub proof fn lemma_mode_field(x: u32)
    by (bit_vector)
    ensures
        (x & 0x1F) & 0x1F == x & 0x1F,
        x & 0x10 != 0 ==> x | 0x10 == x,
        0x10u32 & 0x1F == 0x10,
        0x11u32 & 0x1F == 0x11,
        0x12u32 & 0x1F == 0x12,
        0x13u32 & 0x1F == 0x13,
        0x17u32 & 0x1F == 0x17,
        0x1Bu32 & 0x1F == 0x1B,
        0x1Fu32 & 0x1F == 0x1F,
        ((x & 0xFFFF_FFC0) | 0x12 | 0x80) | 0x10 == (x & 0xFFFF_FFC0) | 0x12 | 0x80,
        ((x & 0xFFFF_FFC0) | 0x12 | 0x80) & 0x1F == 0x12,
        ((x & 0xFFFF_FFC0) | 0x13 | 0x80) | 0x10 == (x & 0xFFFF_FFC0) | 0x13 | 0x80,
        ((x & 0xFFFF_FFC0) | 0x13 | 0x80) & 0x1F == 0x13,
        ((x & 0xFFFF_FFE0) | 0x1F) | 0x10 == (x & 0xFFFF_FFE0) | 0x1F,
{
}

/// Masking the mode field twice is masking it once, for every word.
pub proof fn lemma_mode_mask_idempotent()
    by (bit_vector)
    ensures
        forall|x: u32| #![trigger x & 0x1F] (x & 0x1F) & 0x1F == x & 0x1F,
{
}

} // verus!
