//! The barrel shifter.
//!
//! Produces `(value, carry_out)` for the four shift types plus the ARM
//! data-processing immediate operand. An immediate shift field of 0 is special
//! (LSR/ASR #0 mean #32 and ROR #0 is RRX), whereas a register shift of 0 leaves
//! the value and carry untouched.

use vstd::prelude::*;

verus! {

/// Rotate a word right by `a` places, `a` in 0..32.
pub open spec fn ror32(v: u32, a: u32) -> u32 {
    if a == 0 || a >= 32 {
        v
    } else {
        (v >> a) | (v << ((32 - a) as u32))
    }
}

/// Arithmetic (sign-filling) right shift of a word by `a` places, `a` in 0..32.
pub open spec fn asr32(v: u32, a: u32) -> u32 {
    if v & 0x8000_0000 == 0 {
        v >> a
    } else {
        !((!v) >> a)
    }
}

/// The word made of 32 copies of bit 31 of `v`.
pub open spec fn sign_fill(v: u32) -> u32 {
    if v & 0x8000_0000 != 0 {
        0xFFFF_FFFF
    } else {
        0
    }
}

/// Bit `i` of `v`.
pub open spec fn bit(v: u32, i: u32) -> bool {
    (v >> i) & 1 != 0
}

pub open spec fn lsl_spec(v: u32, amt: u32, carry_in: bool) -> (u32, bool) {
    if amt == 0 {
        (v, carry_in)
    } else if amt < 32 {
        (v << amt, bit(v, (32 - amt) as u32))
    } else if amt == 32 {
        (0, v & 1 != 0)
    } else {
        (0, false)
    }
}

pub open spec fn lsr_spec(v: u32, amt: u32, carry_in: bool, imm: bool) -> (u32, bool) {
    if amt == 0 {
        if imm {
            (0, bit(v, 31))
        } else {
            (v, carry_in)
        }
    } else if amt < 32 {
        (v >> amt, bit(v, (amt - 1) as u32))
    } else if amt == 32 {
        (0, bit(v, 31))
    } else {
        (0, false)
    }
}

pub open spec fn asr_spec(v: u32, amt: u32, carry_in: bool, imm: bool) -> (u32, bool) {
    if amt == 0 {
        if imm {
            (sign_fill(v), bit(v, 31))
        } else {
            (v, carry_in)
        }
    } else if amt < 32 {
        (asr32(v, amt), bit(v, (amt - 1) as u32))
    } else {
        (sign_fill(v), bit(v, 31))
    }
}

pub open spec fn ror_spec(v: u32, amt: u32, carry_in: bool, imm: bool) -> (u32, bool) {
    if amt == 0 {
        if imm {
            ((v >> 1) | (if carry_in { 0x8000_0000u32 } else { 0u32 }), v & 1 != 0)
        } else {
            (v, carry_in)
        }
    } else if amt % 32 == 0 {
        (v, bit(v, 31))
    } else {
        (ror32(v, amt % 32), bit(v, ((amt % 32) - 1) as u32))
    }
}

/// The ARM immediate operand: the low byte rotated right by twice the 4-bit
/// rotate field; a zero rotate keeps the carry, any other sets it from bit 31.
pub open spec fn rotate_immediate_spec(op: u32, carry_in: bool) -> (u32, bool) {
    let imm = op & 0xFF;
    let rot = ((op >> 8) & 0xF) * 2;
    if rot == 0 {
        (imm, carry_in)
    } else {
        (ror32(imm, rot as u32), bit(ror32(imm, rot as u32), 31))
    }
}

/// Rotate right by `a` (0..32) in executable code.
pub fn rotate_right(v: u32, a: u32) -> (r: u32)
    requires
        a < 32,
    ensures
        r == ror32(v, a),
{
    if a == 0 {
        v
    } else {
        (v >> a) | (v << (32 - a))
    }
}

/// The rotation (in bits) that realigns a word read at `addr`: 8 times the
/// byte offset within the word.
pub fn word_rotation(addr: u32) -> (r: u32)
    ensures
        r == ((addr & 3) * 8) as u32,
        r < 32,
{
    let b = addr & 3;
    proof {
        crate::bits::lemma_u32_bits(addr, 3);
    }
    b * 8
}

/// The rotation that realigns a halfword read at `addr`.
pub fn half_rotation(addr: u32) -> (r: u32)
    ensures
        r == ((addr & 1) * 8) as u32,
        r < 32,
{
    let b = addr & 1;
    proof {
        crate::bits::lemma_u32_bits(addr, 1);
    }
    b * 8
}

/// Logical shift left.
pub fn lsl(v: u32, amt: u32, carry_in: bool) -> (r: (u32, bool))
    ensures
        r == lsl_spec(v, amt, carry_in),
{
    if amt == 0 {
        (v, carry_in)
    } else if amt < 32 {
        (v << amt, (v >> (32 - amt)) & 1 != 0)
    } else if amt == 32 {
        (0, v & 1 != 0)
    } else {
        (0, false)
    }
}

/// Logical shift right. With `imm`, an amount of 0 encodes LSR #32.
pub fn lsr(v: u32, amt: u32, carry_in: bool, imm: bool) -> (r: (u32, bool))
    ensures
        r == lsr_spec(v, amt, carry_in, imm),
{
    if amt == 0 {
        if imm {
            (0, (v >> 31) & 1 != 0)
        } else {
            (v, carry_in)
        }
    } else if amt < 32 {
        (v >> amt, (v >> (amt - 1)) & 1 != 0)
    } else if amt == 32 {
        (0, (v >> 31) & 1 != 0)
    } else {
        (0, false)
    }
}

/// Arithmetic shift right. With `imm`, an amount of 0 encodes ASR #32.
pub fn asr(v: u32, amt: u32, carry_in: bool, imm: bool) -> (r: (u32, bool))
    ensures
        r == asr_spec(v, amt, carry_in, imm),
{
    let fill: u32 = if v & 0x8000_0000 != 0 { 0xFFFF_FFFF } else { 0 };
    if amt == 0 {
        if imm {
            (fill, (v >> 31) & 1 != 0)
        } else {
            (v, carry_in)
        }
    } else if amt < 32 {
        let shifted = if v & 0x8000_0000 == 0 { v >> amt } else { !((!v) >> amt) };
        (shifted, (v >> (amt - 1)) & 1 != 0)
    } else {
        (fill, (v >> 31) & 1 != 0)
    }
}

/// Rotate right. With `imm`, an amount of 0 encodes RRX (rotate right through
/// carry by one). Register amounts are taken mod 32 (a non-zero multiple of 32
/// keeps the value and sets carry from bit 31).
pub fn ror(v: u32, amt: u32, carry_in: bool, imm: bool) -> (r: (u32, bool))
    ensures
        r == ror_spec(v, amt, carry_in, imm),
{
    if amt == 0 {
        if imm {
            let top: u32 = if carry_in { 0x8000_0000 } else { 0 };
            ((v >> 1) | top, v & 1 != 0)
        } else {
            (v, carry_in)
        }
    } else {
        let a = amt & 31;
        proof {
            crate::bits::lemma_u32_bits(amt, 0);
        }
        if a == 0 {
            (v, (v >> 31) & 1 != 0)
        } else {
            (rotate_right(v, a), (v >> (a - 1)) & 1 != 0)
        }
    }
}

/// The ARM data-processing immediate operand (bit 25 set).
pub fn rotate_immediate(op: u32, carry_in: bool) -> (r: (u32, bool))
    ensures
        r == rotate_immediate_spec(op, carry_in),
{
    let imm = op & 0xFF;
    let field = (op >> 8) & 0xF;
    proof {
        crate::bits::lemma_u32_bits(op >> 8, 0xF);
    }
    let rot = field * 2;
    if rot == 0 {
        (imm, carry_in)
    } else {
        let v = rotate_right(imm, rot);
        (v, (v >> 31) & 1 != 0)
    }
}

/// Rotating right by `a` and then by `32 - a` gives the word back.
pub proof fn lemma_ror_inverse(v: u32, a: u32)
    requires
        0 < a < 32,
    ensures
        ror32(ror32(v, a), (32 - a) as u32) == v,
{
    let b = (32 - a) as u32;
    assert(((((v >> a) | (v << b)) >> b) | (((v >> a) | (v << b)) << a)) == v) by (bit_vector)
        requires
            0 < a < 32,
            b == 32 - a,
    ;
}

/// A register LSL followed by an LSR by the same amount clears exactly the bits
/// that were shifted out.
pub proof fn lemma_lsl_then_lsr(v: u32, amt: u32, c: bool)
    requires
        0 < amt < 32,
    ensures
        lsr_spec(lsl_spec(v, amt, c).0, amt, c, false).0 == v & (0xFFFF_FFFFu32 >> amt),
{
    assert((v << amt) >> amt == v & (0xFFFF_FFFFu32 >> amt)) by (bit_vector)
        requires
            0 < amt < 32,
    ;
}

} // verus!
