//! 16-bit Thumb instruction execution.
//!
//! The nineteen Thumb formats decode down to the primitives the ARM state
//! uses (the barrel shifter, the adder, the bus). Most data operations run
//! unconditionally and set the flags. R15 reads as the instruction's address
//! + 4; the PC-relative forms word-align it.

use vstd::prelude::*;
use super::barrel;
use super::barrel::{lsl_spec, lsr_spec, asr_spec, ror_spec, ror32};
use super::psr::{Cond, Flags, flags_of, cond_of};
use super::arm::{halfword_load_value, sext8, sign_extend8, block_transfer_effect, loaded, listed, block_data_transfer};
use super::hle::{swi_bus_effect, swi_cpu_effect};
use super::{Arm7tdmi, addc, addc_spec, set_flags, set_flags_word, set_nz, set_nz_word, low_reg_field, reg_field};
use crate::bus::{Access, Bus, BusEvent, Width, read_event, write_event, event_value};

verus! {

broadcast use crate::bus::group_extends;

// --- Formats 1 to 5: register arithmetic ----------------------------------

/// Format 1: LSL / LSR / ASR by an immediate amount.
pub open spec fn move_shifted_effect(cpu: Arm7tdmi, op: u32, after: Arm7tdmi) -> bool {
    let amount = (op >> 6) & 0x1F;
    let rs = ((op >> 3) & 7) as int;
    let rd = (op & 7) as int;
    let v = cpu.r[rs];
    let c = flags_of(cpu.cpsr).c;
    let (res, carry) = if (op >> 11) & 3 == 0 {
        lsl_spec(v, amount, c)
    } else if (op >> 11) & 3 == 1 {
        lsr_spec(v, amount, c, true)
    } else {
        asr_spec(v, amount, c, true)
    };
    cpu.with_regs_cpsr(after, cpu.r@.update(rd, res), set_flags_word(cpu.cpsr, res, carry, false, true))
}

fn move_shifted(cpu: &mut Arm7tdmi, op: u32) -> (branched: bool)
    ensures
        !branched,
        move_shifted_effect(*old(cpu), op, *final(cpu)),
{
    let amount = (op >> 6) & 0x1F;
    let rs = low_reg_field(op, 3);
    let rd = low_reg_field(op, 0);
    assert(op >> 0u32 == op) by { crate::bits::lemma_u32_bits(op, 0); }
    let v = cpu.r[rs];
    let c = cpu.carry();
    let kind = (op >> 11) & 3;
    let (res, carry) = if kind == 0 {
        barrel::lsl(v, amount, c)
    } else if kind == 1 {
        barrel::lsr(v, amount, c, true)
    } else {
        barrel::asr(v, amount, c, true)
    };
    cpu.r[rd] = res;
    set_flags(cpu, res, carry, false, true);
    assert(cpu.r@ =~= old(cpu).r@.update(rd as int, res));
    false
}

/// Format 2: ADD / SUB of a register or a 3-bit immediate.
pub open spec fn add_subtract_effect(cpu: Arm7tdmi, op: u32, after: Arm7tdmi) -> bool {
    let operand = (op >> 6) & 7;
    let a = cpu.r[((op >> 3) & 7) as int];
    let b = if (op >> 10) & 1 == 1 { operand } else { cpu.r[operand as int] };
    let (res, c, v) = if (op >> 9) & 1 == 1 { addc_spec(a, !b, true) } else { addc_spec(a, b, false) };
    cpu.with_regs_cpsr(after, cpu.r@.update((op & 7) as int, res), set_flags_word(cpu.cpsr, res, c, v, false))
}

fn add_subtract(cpu: &mut Arm7tdmi, op: u32) -> (branched: bool)
    ensures
        !branched,
        add_subtract_effect(*old(cpu), op, *final(cpu)),
{
    let operand = low_reg_field(op, 6);
    let rs = low_reg_field(op, 3);
    let rd = low_reg_field(op, 0);
    assert(op >> 0u32 == op) by { crate::bits::lemma_u32_bits(op, 0); }
    let a = cpu.r[rs];
    let b = if (op >> 10) & 1 == 1 { operand as u32 } else { cpu.r[operand] };
    let (res, c, v) = if (op >> 9) & 1 == 1 { addc(a, !b, true) } else { addc(a, b, false) };
    cpu.r[rd] = res;
    set_flags(cpu, res, c, v, false);
    assert(cpu.r@ =~= old(cpu).r@.update(rd as int, res));
    false
}

/// Format 3: MOV / CMP / ADD / SUB with an 8-bit immediate.
pub open spec fn immediate_effect(cpu: Arm7tdmi, op: u32, after: Arm7tdmi) -> bool {
    let rd = ((op >> 8) & 7) as int;
    let imm = op & 0xFF;
    let a = cpu.r[rd];
    let kind = (op >> 11) & 3;
    if kind == 0 {
        cpu.with_regs_cpsr(after, cpu.r@.update(rd, imm), set_nz_word(cpu.cpsr, imm))
    } else {
        let (res, c, v) = if kind == 2 { addc_spec(a, imm, false) } else { addc_spec(a, !imm, true) };
        cpu.with_regs_cpsr(
            after,
            if kind == 1 { cpu.r@ } else { cpu.r@.update(rd, res) },
            set_flags_word(cpu.cpsr, res, c, v, false),
        )
    }
}

fn immediate(cpu: &mut Arm7tdmi, op: u32) -> (branched: bool)
    ensures
        !branched,
        immediate_effect(*old(cpu), op, *final(cpu)),
{
    let rd = low_reg_field(op, 8);
    let imm = op & 0xFF;
    let a = cpu.r[rd];
    let kind = (op >> 11) & 3;
    if kind == 0 {
        cpu.r[rd] = imm;
        set_nz(cpu, imm);
        assert(cpu.r@ =~= old(cpu).r@.update(rd as int, imm));
    } else {
        let (res, c, v) = if kind == 2 { addc(a, imm, false) } else { addc(a, !imm, true) };
        if kind != 1 {
            cpu.r[rd] = res;
        }
        set_flags(cpu, res, c, v, false);
        assert(cpu.r@ =~= if kind == 1 { old(cpu).r@ } else { old(cpu).r@.update(rd as int, res) });
    }
    false
}

/// The Thumb ALU operation `opc` on Rd = `a` and Rs = `b`: whether Rd is
/// written, the result, and the new CPSR.
pub open spec fn thumb_alu_spec(opc: u32, a: u32, b: u32, cpsr: u32) -> (bool, u32, u32) {
    let c = flags_of(cpsr).c;
    if opc == 0x0 {
        (true, a & b, set_nz_word(cpsr, a & b))
    } else if opc == 0x1 {
        (true, a ^ b, set_nz_word(cpsr, a ^ b))
    } else if opc == 0x2 {
        let (r, cy) = lsl_spec(a, b & 0xFF, c);
        (true, r, set_flags_word(cpsr, r, cy, false, true))
    } else if opc == 0x3 {
        let (r, cy) = lsr_spec(a, b & 0xFF, c, false);
        (true, r, set_flags_word(cpsr, r, cy, false, true))
    } else if opc == 0x4 {
        let (r, cy) = asr_spec(a, b & 0xFF, c, false);
        (true, r, set_flags_word(cpsr, r, cy, false, true))
    } else if opc == 0x5 {
        let (r, cy, v) = addc_spec(a, b, c);
        (true, r, set_flags_word(cpsr, r, cy, v, false))
    } else if opc == 0x6 {
        let (r, cy, v) = addc_spec(a, !b, c);
        (true, r, set_flags_word(cpsr, r, cy, v, false))
    } else if opc == 0x7 {
        let (r, cy) = ror_spec(a, b & 0xFF, c, false);
        (true, r, set_flags_word(cpsr, r, cy, false, true))
    } else if opc == 0x8 {
        (false, a & b, set_nz_word(cpsr, a & b))
    } else if opc == 0x9 {
        let (r, cy, v) = addc_spec(0, !b, true);
        (true, r, set_flags_word(cpsr, r, cy, v, false))
    } else if opc == 0xA {
        let (r, cy, v) = addc_spec(a, !b, true);
        (false, r, set_flags_word(cpsr, r, cy, v, false))
    } else if opc == 0xB {
        let (r, cy, v) = addc_spec(a, b, false);
        (false, r, set_flags_word(cpsr, r, cy, v, false))
    } else if opc == 0xC {
        (true, a | b, set_nz_word(cpsr, a | b))
    } else if opc == 0xD {
        let r = a.wrapping_mul(b);
        (true, r, set_nz_word(cpsr, r))
    } else if opc == 0xE {
        (true, a & !b, set_nz_word(cpsr, a & !b))
    } else {
        (true, !b, set_nz_word(cpsr, !b))
    }
}

/// Format 4: ALU operations, Rd = Rd op Rs.
pub open spec fn alu_effect(cpu: Arm7tdmi, op: u32, after: Arm7tdmi) -> bool {
    let rd = (op & 7) as int;
    let (writes, r, cpsr) = thumb_alu_spec((op >> 6) & 0xF, cpu.r[rd], cpu.r[((op >> 3) & 7) as int], cpu.cpsr);
    cpu.with_regs_cpsr(after, if writes { cpu.r@.update(rd, r) } else { cpu.r@ }, cpsr)
}

/// Bit facts the ALU laws use: the register fields are 3 bits, !y is
/// 0xFFFF_FFFF - y, and bit 31 is set exactly from 0x8000_0000 up.
proof fn lemma_alu_fields(op: u32, y: u32, r: u32)
    by (bit_vector)
    ensures
        op & 7 < 8,
        (op >> 3) & 7 < 8,
        !y == 0xFFFF_FFFFu32 - y,
        (r & 0x8000_0000 != 0) == (r >= 0x8000_0000),
{
}

/// Thumb NEG (ALU opcode 9): Rd becomes 0 - Rs modulo 2^32, the other
/// registers stay; N and Z follow the result, C (no borrow) is set exactly
/// when Rs is 0, and V exactly when Rs is 0x8000_0000, the one value whose
/// negation overflows. The mode and control bits are kept.
pub proof fn lemma_alu_neg(cpu: Arm7tdmi, op: u32, after: Arm7tdmi)
    requires
        (op >> 6) & 0xF == 9,
        alu_effect(cpu, op, after),
    ensures
        ({
            let rd = (op & 7) as int;
            let rs = cpu.r[((op >> 3) & 7) as int];
            let f = flags_of(after.cpsr);
            &&& after.r@ == cpu.r@.update(rd, after.r[rd])
            &&& (after.r[rd] as int + rs as int) % 0x1_0000_0000 == 0
            &&& f.n == (after.r[rd] >= 0x8000_0000)
            &&& f.z == (rs == 0)
            &&& f.c == (rs == 0)
            &&& f.v == (rs == 0x8000_0000)
            &&& after.cpsr & 0x0FFF_FFFF == cpu.cpsr & 0x0FFF_FFFF
        }),
{
    let rd = (op & 7) as int;
    let b = cpu.r[((op >> 3) & 7) as int];
    let (r, cy, v) = addc_spec(0, !b, true);
    lemma_alu_fields(op, b, r);
    assert(thumb_alu_spec(9, cpu.r[rd], b, cpu.cpsr) == (true, r, set_flags_word(cpu.cpsr, r, cy, v, false)));
    if b == 0 {
        assert(r == 0);
    } else {
        assert(r as int == 0x1_0000_0000 - b);
    }
    assert(r as u64 + b as u64 == if b == 0 { 0u64 } else { 0x1_0000_0000u64 });
    assert(((!(0u32 ^ !b) & (0u32 ^ r)) & 0x8000_0000 != 0) == (b == 0x8000_0000)) by (bit_vector)
        requires
            r as u64 + b as u64 == if b == 0 { 0u64 } else { 0x1_0000_0000u64 },
    ;
    super::psr::lemma_flags_roundtrip(
        Flags { n: r & 0x8000_0000 != 0, z: r == 0, c: cy, v: v },
        cpu.cpsr,
    );
    assert(after.r@ == cpu.r@.update(rd, r));
    assert(after.r[rd] == r);
}

/// The Thumb ALU's arithmetic, with a = Rd, b = Rs and c the carry flag
/// before (1 when set): ADC (opcode 5) writes a + b + c and SBC (6)
/// a - b - (1 - c), modulo 2^32, C being the carry out of the unsigned sum
/// (for SBC: no borrow); CMP (10) and CMN (11) write no register, CMP's C
/// saying a >= b and its Z a == b, CMN's C the carry out of a + b and its Z
/// that a + b is 0 modulo 2^32; MUL (13) writes the low word of a * b. Z
/// always says the result is 0.
pub proof fn lemma_alu_arith(cpu: Arm7tdmi, op: u32, after: Arm7tdmi)
    requires
        alu_effect(cpu, op, after),
    ensures
        ({
            let opc = (op >> 6) & 0xF;
            let rd = (op & 7) as int;
            let a = cpu.r[rd] as int;
            let b = cpu.r[((op >> 3) & 7) as int] as int;
            let c: int = if flags_of(cpu.cpsr).c { 1 } else { 0 };
            let f = flags_of(after.cpsr);
            &&& (opc == 5 ==> {
                &&& after.r@ == cpu.r@.update(rd, after.r[rd])
                &&& after.r[rd] as int == (a + b + c) % 0x1_0000_0000
                &&& f.c == (a + b + c > 0xFFFF_FFFF)
                &&& f.z == (after.r[rd] == 0)
            })
            &&& (opc == 6 ==> {
                &&& after.r@ == cpu.r@.update(rd, after.r[rd])
                &&& after.r[rd] as int == (a - b - 1 + c) % 0x1_0000_0000
                &&& f.c == (a - b - 1 + c >= 0)
                &&& f.z == (after.r[rd] == 0)
            })
            &&& (opc == 0xA ==> {
                &&& after.r@ == cpu.r@
                &&& f.c == (a >= b)
                &&& f.z == (a == b)
                &&& f.n == ((a - b) % 0x1_0000_0000 >= 0x8000_0000)
            })
            &&& (opc == 0xB ==> {
                &&& after.r@ == cpu.r@
                &&& f.c == (a + b > 0xFFFF_FFFF)
                &&& f.z == ((a + b) % 0x1_0000_0000 == 0)
            })
            &&& (opc == 0xD ==> {
                &&& after.r@ == cpu.r@.update(rd, after.r[rd])
                &&& after.r[rd] as int == (a * b) % 0x1_0000_0000
                &&& f.z == (after.r[rd] == 0)
            })
        }),
{
    lemma_alu_fields(op, 0, 0);
    let opc = (op >> 6) & 0xF;
    let rd = (op & 7) as int;
    let x = cpu.r[rd];
    let y = cpu.r[((op >> 3) & 7) as int];
    let a = x as int;
    let b = y as int;
    let cf = flags_of(cpu.cpsr).c;
    let c: int = if cf { 1 } else { 0 };
    lemma_alu_fields(op, y, 0);
    let (w, cpsr) = (thumb_alu_spec(opc, x, y, cpu.cpsr).1, thumb_alu_spec(opc, x, y, cpu.cpsr).2);
    assert(after.cpsr == cpsr);
    if opc == 5 || opc == 6 || opc == 0xA || opc == 0xB {
        let (r, cy, v) = if opc == 5 {
            addc_spec(x, y, cf)
        } else if opc == 6 {
            addc_spec(x, !y, cf)
        } else if opc == 0xA {
            addc_spec(x, !y, true)
        } else {
            addc_spec(x, y, false)
        };
        assert(w == r && cpsr == set_flags_word(cpu.cpsr, r, cy, v, false));
        super::psr::lemma_flags_roundtrip(Flags { n: r & 0x8000_0000 != 0, z: r == 0, c: cy, v: v }, cpu.cpsr);
        lemma_alu_fields(op, y, r);
        if opc == 6 || opc == 0xA {
            let d = if opc == 6 { c } else { 1 };
            vstd::arithmetic::div_mod::lemma_mod_add_multiples_vanish(a - b - 1 + d, 0x1_0000_0000);
            assert(r as int == (a - b - 1 + d) % 0x1_0000_0000);
        }
        if opc != 0xA && opc != 0xB {
            assert(after.r@ == cpu.r@.update(rd, r));
            assert(after.r[rd] == r);
        }
    } else if opc == 0xD {
        assert(w == x.wrapping_mul(y));
        assert(after.r@ == cpu.r@.update(rd, w));
        assert(after.r[rd] == w);
        super::psr::lemma_flags_roundtrip(Flags { n: w & 0x8000_0000 != 0, z: w == 0, c: flags_of(cpu.cpsr).c, v: flags_of(cpu.cpsr).v }, cpu.cpsr);
    }
}

fn alu(cpu: &mut Arm7tdmi, op: u32) -> (branched: bool)
    ensures
        !branched,
        alu_effect(*old(cpu), op, *final(cpu)),
{
    let rs = low_reg_field(op, 3);
    let rd = low_reg_field(op, 0);
    assert(op >> 0u32 == op) by { crate::bits::lemma_u32_bits(op, 0); }
    let a = cpu.r[rd];
    let b = cpu.r[rs];
    let c = cpu.carry();
    let opc = (op >> 6) & 0xF;
    assert(opc <= 0xF) by {
        crate::bits::lemma_u32_bits(op >> 6, 0xF);
    }
    let ghost expect = thumb_alu_spec(opc, a, b, cpu.cpsr);
    if opc == 0x0 || opc == 0x1 || opc == 0x8 || opc == 0xC || opc == 0xD || opc == 0xE || opc == 0xF {
        let r = if opc == 0x0 || opc == 0x8 {
            a & b
        } else if opc == 0x1 {
            a ^ b
        } else if opc == 0xC {
            a | b
        } else if opc == 0xD {
            a.wrapping_mul(b)
        } else if opc == 0xE {
            a & !b
        } else {
            !b
        };
        if opc != 0x8 {
            cpu.r[rd] = r;
        }
        set_nz(cpu, r);
        assert(expect == (opc != 0x8, r, cpu.cpsr));
        assert(cpu.r@ =~= if opc != 0x8 { old(cpu).r@.update(rd as int, r) } else { old(cpu).r@ });
    } else if opc == 0x2 || opc == 0x3 || opc == 0x4 || opc == 0x7 {
        let (res, carry) = if opc == 0x2 {
            barrel::lsl(a, b & 0xFF, c)
        } else if opc == 0x3 {
            barrel::lsr(a, b & 0xFF, c, false)
        } else if opc == 0x4 {
            barrel::asr(a, b & 0xFF, c, false)
        } else {
            barrel::ror(a, b & 0xFF, c, false)
        };
        cpu.r[rd] = res;
        set_flags(cpu, res, carry, false, true);
        assert(expect == (true, res, cpu.cpsr));
        assert(cpu.r@ =~= old(cpu).r@.update(rd as int, res));
    } else {
        let (res, carry, v) = if opc == 0x5 {
            addc(a, b, c)
        } else if opc == 0x6 {
            addc(a, !b, c)
        } else if opc == 0x9 {
            addc(0, !b, true)
        } else if opc == 0xA {
            addc(a, !b, true)
        } else {
            addc(a, b, false)
        };
        if opc != 0xA && opc != 0xB {
            cpu.r[rd] = res;
        }
        set_flags(cpu, res, carry, v, false);
        assert(expect == (opc != 0xA && opc != 0xB, res, cpu.cpsr));
        assert(cpu.r@ =~= if opc != 0xA && opc != 0xB { old(cpu).r@.update(rd as int, res) } else { old(cpu).r@ });
    }
    false
}

/// Format 5: ADD / CMP / MOV on the full register file, and BX. ADD and MOV
/// set no flags and keep a written PC halfword-aligned.
pub open spec fn hi_register_effect(cpu: Arm7tdmi, op: u32, after: Arm7tdmi, branched: bool) -> bool {
    let rs = ((op >> 3) & 0xF) as int;
    let rd = ((op & 7) | ((op >> 4) & 8)) as int;
    let a = cpu.r[rd];
    let b = cpu.r[rs];
    let kind = (op >> 8) & 3;
    if kind == 0 {
        let r = a.wrapping_add(b);
        &&& branched == (rd == 15)
        &&& cpu.with_regs(after, cpu.r@.update(rd, if rd == 15 { r & 0xFFFF_FFFE } else { r }))
    } else if kind == 1 {
        let (r, c, v) = addc_spec(a, !b, true);
        &&& !branched
        &&& cpu.with_cpsr_word(after, set_flags_word(cpu.cpsr, r, c, v, false))
    } else if kind == 2 {
        &&& branched == (rd == 15)
        &&& cpu.with_regs(after, cpu.r@.update(rd, if rd == 15 { b & 0xFFFF_FFFE } else { b }))
    } else {
        &&& branched
        &&& cpu.with_regs_cpsr(
            after,
            cpu.r@.update(15, b & 0xFFFF_FFFE),
            if b & 1 != 0 { cpu.cpsr | 0x20 } else { cpu.cpsr & 0xFFFF_FFDF },
        )
    }
}

fn hi_register(cpu: &mut Arm7tdmi, op: u32) -> (branched: bool)
    ensures
        hi_register_effect(*old(cpu), op, *final(cpu), branched),
{
    let rs = reg_field(op, 3);
    let rd_bits = (op & 7) | ((op >> 4) & 8);
    assert(rd_bits < 16) by {
        lemma_thumb_fields(op, 0);
    }
    let rd = rd_bits as usize;
    let a = cpu.r[rd];
    let b = cpu.r[rs];
    let kind = (op >> 8) & 3;
    if kind == 0 {
        let r = a.wrapping_add(b);
        let v = if rd == 15 { r & 0xFFFF_FFFE } else { r };
        cpu.r[rd] = v;
        assert(cpu.r@ =~= old(cpu).r@.update(rd as int, v));
        rd == 15
    } else if kind == 1 {
        let (r, c, v) = addc(a, !b, true);
        set_flags(cpu, r, c, v, false);
        false
    } else if kind == 2 {
        let v = if rd == 15 { b & 0xFFFF_FFFE } else { b };
        cpu.r[rd] = v;
        assert(cpu.r@ =~= old(cpu).r@.update(rd as int, v));
        rd == 15
    } else {
        if b & 1 != 0 {
            cpu.cpsr = cpu.cpsr | 0x20;
        } else {
            cpu.cpsr = cpu.cpsr & 0xFFFF_FFDF;
        }
        cpu.r[15] = b & 0xFFFF_FFFE;
        assert(cpu.r@ =~= old(cpu).r@.update(15, b & 0xFFFF_FFFE));
        true
    }
}

// --- Formats 6 to 13: loads, stores and address arithmetic ----------------

/// A word or byte load into `rd`, or a store of it, at `addr`. A word load
/// from an unaligned address is rotated into place.
pub open spec fn transfer_effect(
    cpu: Arm7tdmi,
    addr: u32,
    rd: int,
    load: bool,
    byte: bool,
    after: Arm7tdmi,
    ev0: Seq<BusEvent>,
    ev1: Seq<BusEvent>,
) -> bool {
    let width = if byte { Width::Byte } else { Width::Word };
    if load {
        let raw = event_value(ev1[ev0.len() as int]);
        &&& ev1 == ev0.push(read_event(width, addr, Access::NonSeq, raw))
        &&& cpu.with_regs(after, cpu.r@.update(rd, if byte { raw } else { ror32(raw, ((addr & 3) * 8) as u32) }))
    } else {
        &&& ev1 == ev0.push(write_event(width, addr, Access::NonSeq, if byte { cpu.r[rd] & 0xFF } else { cpu.r[rd] }))
        &&& after == cpu
    }
}

fn transfer<B: Bus>(cpu: &mut Arm7tdmi, bus: &mut B, addr: u32, rd: usize, load: bool, byte: bool)
    requires
        rd < 16,
    ensures
        crate::bus::extends(old(bus).events(), final(bus).events()),
        transfer_effect(*old(cpu), addr, rd as int, load, byte, *final(cpu), old(bus).events(), final(bus).events()),
        final(bus).clock() >= old(bus).clock(),
        old(bus).inv() ==> final(bus).inv(),
        final(bus).setup() == old(bus).setup(),
{
    if load {
        let v = if byte {
            bus.read8(addr, Access::NonSeq) as u32
        } else {
            let raw = bus.read32(addr, Access::NonSeq);
            barrel::rotate_right(raw, barrel::word_rotation(addr))
        };
        cpu.r[rd] = v;
        assert(cpu.r@ =~= old(cpu).r@.update(rd as int, v));
    } else if byte {
        let x = cpu.r[rd];
        proof {
            crate::bits::lemma_u32_bits(x, 0);
        }
        bus.write8(addr, x as u8, Access::NonSeq);
    } else {
        bus.write32(addr, cpu.r[rd], Access::NonSeq);
    }
}

/// Format 6: load a word from the word-aligned PC plus an 8-bit word offset.
pub open spec fn pc_relative_load_effect(cpu: Arm7tdmi, op: u32, after: Arm7tdmi, ev0: Seq<BusEvent>, ev1: Seq<BusEvent>) -> bool {
    let addr = (cpu.r[15] & 0xFFFF_FFFC).wrapping_add((op & 0xFF) << 2);
    let raw = event_value(ev1[ev0.len() as int]);
    &&& ev1 == ev0.push(read_event(Width::Word, addr, Access::NonSeq, raw))
    &&& cpu.with_regs(after, cpu.r@.update(((op >> 8) & 7) as int, raw))
}

fn pc_relative_load<B: Bus>(cpu: &mut Arm7tdmi, bus: &mut B, op: u32) -> (branched: bool)
    ensures
        crate::bus::extends(old(bus).events(), final(bus).events()),
        !branched,
        pc_relative_load_effect(*old(cpu), op, *final(cpu), old(bus).events(), final(bus).events()),
        final(bus).clock() >= old(bus).clock(),
        old(bus).inv() ==> final(bus).inv(),
        final(bus).setup() == old(bus).setup(),
{
    let rd = low_reg_field(op, 8);
    let addr = (cpu.r[15] & 0xFFFF_FFFC).wrapping_add((op & 0xFF) << 2);
    let v = bus.read32(addr, Access::NonSeq);
    cpu.r[rd] = v;
    assert(cpu.r@ =~= old(cpu).r@.update(rd as int, v));
    false
}

/// Format 7: word / byte load or store at Rb + Ro.
pub open spec fn load_store_reg_effect(cpu: Arm7tdmi, op: u32, after: Arm7tdmi, ev0: Seq<BusEvent>, ev1: Seq<BusEvent>) -> bool {
    let addr = cpu.r[((op >> 3) & 7) as int].wrapping_add(cpu.r[((op >> 6) & 7) as int]);
    transfer_effect(cpu, addr, (op & 7) as int, (op >> 11) & 1 == 1, (op >> 10) & 1 == 1, after, ev0, ev1)
}

fn load_store_reg<B: Bus>(cpu: &mut Arm7tdmi, bus: &mut B, op: u32) -> (branched: bool)
    ensures
        crate::bus::extends(old(bus).events(), final(bus).events()),
        !branched,
        load_store_reg_effect(*old(cpu), op, *final(cpu), old(bus).events(), final(bus).events()),
        final(bus).clock() >= old(bus).clock(),
        old(bus).inv() ==> final(bus).inv(),
        final(bus).setup() == old(bus).setup(),
{
    let ro = low_reg_field(op, 6);
    let rb = low_reg_field(op, 3);
    let rd = low_reg_field(op, 0);
    assert(op >> 0u32 == op) by { crate::bits::lemma_u32_bits(op, 0); }
    let addr = cpu.r[rb].wrapping_add(cpu.r[ro]);
    transfer(cpu, bus, addr, rd, (op >> 11) & 1 == 1, (op >> 10) & 1 == 1);
    false
}

/// The ARM halfword-transfer code (1 = LDRH, 2 = LDRSB, 3 = LDRSH) of a
/// Thumb format 8 field {H, S} (1 = LDRSB, 2 = LDRH, 3 = LDRSH).
pub open spec fn arm_sh(field: u32) -> u32 {
    if field == 1 {
        2
    } else if field == 2 {
        1
    } else {
        field
    }
}

/// Format 8: STRH / LDRSB / LDRH / LDRSH at Rb + Ro.
pub open spec fn load_store_sign_extended_effect(cpu: Arm7tdmi, op: u32, after: Arm7tdmi, ev0: Seq<BusEvent>, ev1: Seq<BusEvent>) -> bool {
    let field = (op >> 10) & 3;
    let addr = cpu.r[((op >> 3) & 7) as int].wrapping_add(cpu.r[((op >> 6) & 7) as int]);
    let rd = (op & 7) as int;
    if field == 0 {
        &&& ev1 == ev0.push(write_event(Width::Half, addr, Access::NonSeq, cpu.r[rd] & 0xFFFF))
        &&& after == cpu
    } else {
        let raw = event_value(ev1[ev0.len() as int]);
        &&& ev1 == ev0.push(read_event(if field == 1 { Width::Byte } else { Width::Half }, addr, Access::NonSeq, raw))
        &&& cpu.with_regs(after, cpu.r@.update(rd, halfword_load_value(arm_sh(field), addr, raw)))
    }
}

fn load_store_sign_extended<B: Bus>(cpu: &mut Arm7tdmi, bus: &mut B, op: u32) -> (branched: bool)
    ensures
        crate::bus::extends(old(bus).events(), final(bus).events()),
        !branched,
        load_store_sign_extended_effect(*old(cpu), op, *final(cpu), old(bus).events(), final(bus).events()),
        final(bus).clock() >= old(bus).clock(),
        old(bus).inv() ==> final(bus).inv(),
        final(bus).setup() == old(bus).setup(),
{
    let field = (op >> 10) & 3;
    let ro = low_reg_field(op, 6);
    let rb = low_reg_field(op, 3);
    let rd = low_reg_field(op, 0);
    assert(op >> 0u32 == op) by { crate::bits::lemma_u32_bits(op, 0); }
    let addr = cpu.r[rb].wrapping_add(cpu.r[ro]);
    if field == 0 {
        let x = cpu.r[rd];
        proof {
            crate::bits::lemma_u32_bits(x, 0);
        }
        bus.write16(addr, x as u16, Access::NonSeq);
        return false;
    }
    let v = if field == 1 {
        let raw = bus.read8(addr, Access::NonSeq) as u32;
        sign_extend8(raw)
    } else if field == 2 {
        let raw = bus.read16(addr, Access::NonSeq) as u32;
        barrel::rotate_right(raw, barrel::half_rotation(addr))
    } else {
        let raw = bus.read16(addr, Access::NonSeq) as u32;
        if addr & 1 != 0 {
            sign_extend8(raw >> 8)
        } else {
            super::arm::sign_extend16(raw)
        }
    };
    cpu.r[rd] = v;
    assert(cpu.r@ =~= old(cpu).r@.update(rd as int, v));
    false
}

/// Format 9: word / byte load or store at Rb plus a 5-bit offset (scaled by
/// four for words).
pub open spec fn load_store_imm_effect(cpu: Arm7tdmi, op: u32, after: Arm7tdmi, ev0: Seq<BusEvent>, ev1: Seq<BusEvent>) -> bool {
    let byte = (op >> 12) & 1 == 1;
    let offset = (op >> 6) & 0x1F;
    let addr = cpu.r[((op >> 3) & 7) as int].wrapping_add(if byte { offset } else { offset << 2 });
    transfer_effect(cpu, addr, (op & 7) as int, (op >> 11) & 1 == 1, byte, after, ev0, ev1)
}

fn load_store_imm<B: Bus>(cpu: &mut Arm7tdmi, bus: &mut B, op: u32) -> (branched: bool)
    ensures
        crate::bus::extends(old(bus).events(), final(bus).events()),
        !branched,
        load_store_imm_effect(*old(cpu), op, *final(cpu), old(bus).events(), final(bus).events()),
        final(bus).clock() >= old(bus).clock(),
        old(bus).inv() ==> final(bus).inv(),
        final(bus).setup() == old(bus).setup(),
{
    let byte = (op >> 12) & 1 == 1;
    let offset = (op >> 6) & 0x1F;
    let rb = low_reg_field(op, 3);
    let rd = low_reg_field(op, 0);
    assert(op >> 0u32 == op) by { crate::bits::lemma_u32_bits(op, 0); }
    let addr = cpu.r[rb].wrapping_add(if byte { offset } else { offset << 2 });
    transfer(cpu, bus, addr, rd, (op >> 11) & 1 == 1, byte);
    false
}

/// Format 10: halfword load or store at Rb plus a 5-bit halfword offset.
pub open spec fn load_store_halfword_effect(cpu: Arm7tdmi, op: u32, after: Arm7tdmi, ev0: Seq<BusEvent>, ev1: Seq<BusEvent>) -> bool {
    let addr = cpu.r[((op >> 3) & 7) as int].wrapping_add(((op >> 6) & 0x1F) << 1);
    let rd = (op & 7) as int;
    if (op >> 11) & 1 == 1 {
        let raw = event_value(ev1[ev0.len() as int]);
        &&& ev1 == ev0.push(read_event(Width::Half, addr, Access::NonSeq, raw))
        &&& cpu.with_regs(after, cpu.r@.update(rd, ror32(raw, ((addr & 1) * 8) as u32)))
    } else {
        &&& ev1 == ev0.push(write_event(Width::Half, addr, Access::NonSeq, cpu.r[rd] & 0xFFFF))
        &&& after == cpu
    }
}

fn load_store_halfword<B: Bus>(cpu: &mut Arm7tdmi, bus: &mut B, op: u32) -> (branched: bool)
    ensures
        crate::bus::extends(old(bus).events(), final(bus).events()),
        !branched,
        load_store_halfword_effect(*old(cpu), op, *final(cpu), old(bus).events(), final(bus).events()),
        final(bus).clock() >= old(bus).clock(),
        old(bus).inv() ==> final(bus).inv(),
        final(bus).setup() == old(bus).setup(),
{
    let offset = ((op >> 6) & 0x1F) << 1;
    let rb = low_reg_field(op, 3);
    let rd = low_reg_field(op, 0);
    assert(op >> 0u32 == op) by { crate::bits::lemma_u32_bits(op, 0); }
    let addr = cpu.r[rb].wrapping_add(offset);
    if (op >> 11) & 1 == 1 {
        let raw = bus.read16(addr, Access::NonSeq) as u32;
        let v = barrel::rotate_right(raw, barrel::half_rotation(addr));
        cpu.r[rd] = v;
        assert(cpu.r@ =~= old(cpu).r@.update(rd as int, v));
    } else {
        let x = cpu.r[rd];
        proof {
            crate::bits::lemma_u32_bits(x, 0);
        }
        bus.write16(addr, x as u16, Access::NonSeq);
    }
    false
}

/// Format 11: word load or store at SP plus an 8-bit word offset.
pub open spec fn sp_relative_effect(cpu: Arm7tdmi, op: u32, after: Arm7tdmi, ev0: Seq<BusEvent>, ev1: Seq<BusEvent>) -> bool {
    let addr = cpu.r[13].wrapping_add((op & 0xFF) << 2);
    transfer_effect(cpu, addr, ((op >> 8) & 7) as int, (op >> 11) & 1 == 1, false, after, ev0, ev1)
}

fn sp_relative<B: Bus>(cpu: &mut Arm7tdmi, bus: &mut B, op: u32) -> (branched: bool)
    ensures
        crate::bus::extends(old(bus).events(), final(bus).events()),
        !branched,
        sp_relative_effect(*old(cpu), op, *final(cpu), old(bus).events(), final(bus).events()),
        final(bus).clock() >= old(bus).clock(),
        old(bus).inv() ==> final(bus).inv(),
        final(bus).setup() == old(bus).setup(),
{
    let rd = low_reg_field(op, 8);
    let addr = cpu.r[13].wrapping_add((op & 0xFF) << 2);
    transfer(cpu, bus, addr, rd, (op >> 11) & 1 == 1, false);
    false
}

/// Format 12: Rd = (SP, or the word-aligned PC) plus an 8-bit word offset.
pub open spec fn load_address_effect(cpu: Arm7tdmi, op: u32, after: Arm7tdmi) -> bool {
    let base = if (op >> 11) & 1 == 1 { cpu.r[13] } else { cpu.r[15] & 0xFFFF_FFFC };
    cpu.with_regs(after, cpu.r@.update(((op >> 8) & 7) as int, base.wrapping_add((op & 0xFF) << 2)))
}

fn load_address(cpu: &mut Arm7tdmi, op: u32) -> (branched: bool)
    ensures
        !branched,
        load_address_effect(*old(cpu), op, *final(cpu)),
{
    let rd = low_reg_field(op, 8);
    let base = if (op >> 11) & 1 == 1 { cpu.r[13] } else { cpu.r[15] & 0xFFFF_FFFC };
    let v = base.wrapping_add((op & 0xFF) << 2);
    cpu.r[rd] = v;
    assert(cpu.r@ =~= old(cpu).r@.update(rd as int, v));
    false
}

/// Format 13: add a signed 7-bit word offset to SP.
pub open spec fn add_to_sp_effect(cpu: Arm7tdmi, op: u32, after: Arm7tdmi) -> bool {
    let offset = (op & 0x7F) << 2;
    cpu.with_regs(
        after,
        cpu.r@.update(13, if (op >> 7) & 1 == 1 { cpu.r[13].wrapping_sub(offset) } else { cpu.r[13].wrapping_add(offset) }),
    )
}

fn add_to_sp(cpu: &mut Arm7tdmi, op: u32) -> (branched: bool)
    ensures
        !branched,
        add_to_sp_effect(*old(cpu), op, *final(cpu)),
{
    let offset = (op & 0x7F) << 2;
    let v = if (op >> 7) & 1 == 1 { cpu.r[13].wrapping_sub(offset) } else { cpu.r[13].wrapping_add(offset) };
    cpu.r[13] = v;
    assert(cpu.r@ =~= old(cpu).r@.update(13, v));
    false
}

// --- Formats 14 and 15: multiple transfers -------------------------------

/// PUSH as the ARM STMDB SP! it performs (LR added to the list with bit 8).
pub open spec fn push_op(op: u32) -> u32 {
    0xE92D_0000 | (op & 0xFF) | (((op >> 8) & 1) << 14)
}

/// POP as the ARM LDMIA SP! it performs (PC added to the list with bit 8).
pub open spec fn pop_op(op: u32) -> u32 {
    0xE8BD_0000 | (op & 0xFF) | (((op >> 8) & 1) << 15)
}

/// LDMIA / STMIA Rb! as the ARM instruction it performs.
pub open spec fn ldm_stm_op(op: u32) -> u32 {
    (if (op >> 11) & 1 == 1 { 0xE8B0_0000u32 } else { 0xE8A0_0000u32 }) | (((op >> 8) & 7) << 16) | (op & 0xFF)
}

/// Format 14: PUSH / POP. With nothing listed, R15 alone is transferred and
/// SP moves by 0x40; a popped PC has its low bit cleared.
pub open spec fn push_pop_effect(cpu: Arm7tdmi, op: u32, after: Arm7tdmi, ev0: Seq<BusEvent>, ev1: Seq<BusEvent>, branched: bool) -> bool {
    let load = (op >> 11) & 1 == 1;
    let extra = (op >> 8) & 1 == 1;
    let sp = cpu.r[13];
    if op & 0xFF == 0 && !extra {
        if load {
            let raw = event_value(ev1[ev0.len() as int]);
            &&& ev1 == ev0.push(read_event(Width::Word, sp, Access::NonSeq, raw))
            &&& branched
            &&& cpu.with_regs(after, cpu.r@.update(15, raw).update(13, sp.wrapping_add(0x40)))
        } else {
            &&& ev1 == ev0.push(write_event(Width::Word, sp.wrapping_sub(0x40), Access::NonSeq, cpu.r[15].wrapping_add(2)))
            &&& !branched
            &&& cpu.with_regs(after, cpu.r@.update(13, sp.wrapping_sub(0x40)))
        }
    } else if load && extra {
        let raw = loaded(ev0, ev1, pop_op(op) & 0xFFFF, 15);
        &&& after.r[15] == raw & 0xFFFF_FFFE
        &&& block_transfer_effect(
            cpu,
            pop_op(op),
            Arm7tdmi { r: vstd::array::spec_array_update(after.r, 15, raw), ..after },
            ev0,
            ev1,
            branched,
        )
    } else if load {
        block_transfer_effect(cpu, pop_op(op), after, ev0, ev1, branched)
    } else {
        block_transfer_effect(cpu, push_op(op), after, ev0, ev1, branched)
    }
}

fn push_pop<B: Bus>(cpu: &mut Arm7tdmi, bus: &mut B, op: u32) -> (branched: bool)
    ensures
        crate::bus::extends(old(bus).events(), final(bus).events()),
        push_pop_effect(*old(cpu), op, *final(cpu), old(bus).events(), final(bus).events(), branched),
        final(bus).clock() >= old(bus).clock(),
        old(bus).inv() ==> final(bus).inv(),
        final(bus).setup() == old(bus).setup(),
{
    let load = (op >> 11) & 1 == 1;
    let extra = (op >> 8) & 1 == 1;
    let list = op & 0xFF;
    if list == 0 && !extra {
        let sp = cpu.r[13];
        if load {
            let v = bus.read32(sp, Access::NonSeq);
            cpu.r[15] = v;
            cpu.r[13] = sp.wrapping_add(0x40);
            assert(cpu.r@ =~= old(cpu).r@.update(15, v).update(13, sp.wrapping_add(0x40)));
            return true;
        }
        let low = sp.wrapping_sub(0x40);
        bus.write32(low, cpu.r[15].wrapping_add(2), Access::NonSeq);
        cpu.r[13] = low;
        assert(cpu.r@ =~= old(cpu).r@.update(13, low));
        return false;
    }
    let ex = (op >> 8) & 1;
    if load {
        let aop = 0xE8BD_0000 | list | (ex << 15);
        assert(aop & 0xFFFF != 0) by {
            lemma_thumb_fields(op, 0);
        }
        let branched = block_data_transfer(cpu, bus, aop);
        if extra {
            let ghost mid = *cpu;
            let raw = cpu.r[15];
            cpu.r[15] = raw & 0xFFFF_FFFE;
            proof {
                lemma_thumb_fields(op, 0);
                assert(aop == pop_op(op));
                assert(listed(aop & 0xFFFF, 15));
                assert(vstd::array::spec_array_update(cpu.r, 15, raw)@ =~= mid.r@);
                assert(vstd::array::spec_array_update(cpu.r, 15, raw) =~= mid.r);
                assert((Arm7tdmi { r: vstd::array::spec_array_update(cpu.r, 15, raw), ..*cpu }) == mid);
            }
        }
        branched
    } else {
        let aop = 0xE92D_0000 | list | (ex << 14);
        assert(aop & 0xFFFF != 0) by {
            lemma_thumb_fields(op, 0);
        }
        block_data_transfer(cpu, bus, aop)
    }
}

/// Format 15: LDMIA / STMIA Rb!. With nothing listed, R15 alone is
/// transferred and Rb moves by 0x40.
pub open spec fn block_transfer_thumb_effect(cpu: Arm7tdmi, op: u32, after: Arm7tdmi, ev0: Seq<BusEvent>, ev1: Seq<BusEvent>, branched: bool) -> bool {
    let rb = ((op >> 8) & 7) as int;
    let base = cpu.r[rb];
    if op & 0xFF == 0 {
        if (op >> 11) & 1 == 1 {
            let raw = event_value(ev1[ev0.len() as int]);
            &&& ev1 == ev0.push(read_event(Width::Word, base, Access::NonSeq, raw))
            &&& branched
            &&& cpu.with_regs(after, cpu.r@.update(rb, base.wrapping_add(0x40)).update(15, raw))
        } else {
            &&& ev1 == ev0.push(write_event(Width::Word, base, Access::NonSeq, cpu.r[15].wrapping_add(2)))
            &&& !branched
            &&& cpu.with_regs(after, cpu.r@.update(rb, base.wrapping_add(0x40)))
        }
    } else {
        block_transfer_effect(cpu, ldm_stm_op(op), after, ev0, ev1, branched)
    }
}

fn block_transfer<B: Bus>(cpu: &mut Arm7tdmi, bus: &mut B, op: u32) -> (branched: bool)
    ensures
        crate::bus::extends(old(bus).events(), final(bus).events()),
        block_transfer_thumb_effect(*old(cpu), op, *final(cpu), old(bus).events(), final(bus).events(), branched),
        final(bus).clock() >= old(bus).clock(),
        old(bus).inv() ==> final(bus).inv(),
        final(bus).setup() == old(bus).setup(),
{
    let load = (op >> 11) & 1 == 1;
    let rb = low_reg_field(op, 8);
    let list = op & 0xFF;
    if list == 0 {
        let base = cpu.r[rb];
        cpu.r[rb] = base.wrapping_add(0x40);
        if load {
            let v = bus.read32(base, Access::NonSeq);
            cpu.r[15] = v;
            assert(cpu.r@ =~= old(cpu).r@.update(rb as int, base.wrapping_add(0x40)).update(15, v));
            return true;
        }
        bus.write32(base, cpu.r[15].wrapping_add(2), Access::NonSeq);
        assert(cpu.r@ =~= old(cpu).r@.update(rb as int, base.wrapping_add(0x40)));
        return false;
    }
    let rbw = rb as u32;
    let aop = (if load { 0xE8B0_0000u32 } else { 0xE8A0_0000u32 }) | (rbw << 16) | list;
    assert(aop & 0xFFFF != 0) by {
        lemma_thumb_fields(op, rbw);
    }
    block_data_transfer(cpu, bus, aop)
}

// --- Formats 16 to 19: branches, and SWI ------------------------------------

/// Format 16: branch by a signed 8-bit halfword offset when the condition
/// holds.
pub open spec fn conditional_branch_effect(cpu: Arm7tdmi, op: u32, after: Arm7tdmi, branched: bool) -> bool {
    if flags_of(cpu.cpsr).holds(cond_of((op >> 8) & 0xF)) {
        &&& branched
        &&& cpu.with_regs(after, cpu.r@.update(15, cpu.r[15].wrapping_add(sext8(op & 0xFF) << 1)))
    } else {
        !branched && after == cpu
    }
}

fn conditional_branch(cpu: &mut Arm7tdmi, op: u32) -> (branched: bool)
    ensures
        conditional_branch_effect(*old(cpu), op, *final(cpu), branched),
{
    let cond = Cond::decode((op >> 8) & 0xF);
    if !Flags::from_cpsr(cpu.cpsr).eval(cond) {
        return false;
    }
    let offset = sign_extend8(op & 0xFF) << 1;
    let v = cpu.r[15].wrapping_add(offset);
    cpu.r[15] = v;
    assert(cpu.r@ =~= old(cpu).r@.update(15, v));
    true
}

/// The sign-extended, doubled 11-bit offset of an unconditional branch.
pub open spec fn branch11_offset(op: u32) -> u32 {
    if op & 0x400 != 0 {
        ((op & 0x7FF) << 1) | 0xFFFF_F000
    } else {
        (op & 0x7FF) << 1
    }
}

/// Format 18: branch by a signed 11-bit halfword offset.
pub open spec fn unconditional_branch_effect(cpu: Arm7tdmi, op: u32, after: Arm7tdmi) -> bool {
    cpu.with_regs(after, cpu.r@.update(15, cpu.r[15].wrapping_add(branch11_offset(op))))
}

fn unconditional_branch(cpu: &mut Arm7tdmi, op: u32) -> (branched: bool)
    ensures
        branched,
        unconditional_branch_effect(*old(cpu), op, *final(cpu)),
{
    let offset = if op & 0x400 != 0 { ((op & 0x7FF) << 1) | 0xFFFF_F000 } else { (op & 0x7FF) << 1 };
    let v = cpu.r[15].wrapping_add(offset);
    cpu.r[15] = v;
    assert(cpu.r@ =~= old(cpu).r@.update(15, v));
    true
}

/// The high part of a long branch: the sign-extended 11-bit offset shifted
/// up by 12.
pub open spec fn long_branch_high(op: u32) -> u32 {
    if op & 0x400 != 0 {
        ((op & 0x7FF) << 12) | 0xFF80_0000
    } else {
        (op & 0x7FF) << 12
    }
}

/// Format 19: BL in two halves. The first seeds LR with PC plus the high
/// offset; the second branches to LR plus the low offset and leaves the
/// return address, with its Thumb bit set, in LR.
pub open spec fn long_branch_link_effect(cpu: Arm7tdmi, op: u32, after: Arm7tdmi, branched: bool) -> bool {
    if (op >> 11) & 1 == 0 {
        &&& !branched
        &&& cpu.with_regs(after, cpu.r@.update(14, cpu.r[15].wrapping_add(long_branch_high(op))))
    } else {
        &&& branched
        &&& cpu.with_regs(
            after,
            cpu.r@.update(15, cpu.r[14].wrapping_add((op & 0x7FF) << 1) & 0xFFFF_FFFE).update(
                14,
                cpu.r[15].wrapping_sub(2) | 1,
            ),
        )
    }
}

fn long_branch_link(cpu: &mut Arm7tdmi, op: u32) -> (branched: bool)
    ensures
        long_branch_link_effect(*old(cpu), op, *final(cpu), branched),
{
    let offset = op & 0x7FF;
    if (op >> 11) & 1 == 0 {
        let hi = if op & 0x400 != 0 { (offset << 12) | 0xFF80_0000 } else { offset << 12 };
        let v = cpu.r[15].wrapping_add(hi);
        cpu.r[14] = v;
        assert(cpu.r@ =~= old(cpu).r@.update(14, v));
        false
    } else {
        let target = cpu.r[14].wrapping_add(offset << 1) & 0xFFFF_FFFE;
        let ret = cpu.r[15].wrapping_sub(2) | 1;
        cpu.r[15] = target;
        cpu.r[14] = ret;
        assert(cpu.r@ =~= old(cpu).r@.update(15, target).update(14, ret));
        true
    }
}

/// Format 17: SWI. With the BIOS emulated at a high level, the call's own
/// effect; else the Supervisor exception is entered with the return address
/// (the next instruction) in LR_svc.
pub open spec fn thumb_swi_effect(cpu: Arm7tdmi, op: u32, after: Arm7tdmi, ev0: Seq<BusEvent>, ev1: Seq<BusEvent>, branched: bool) -> bool {
    let num = (op & 0xFF) as u8;
    if cpu.hle_bios {
        &&& branched == (num == 0)
        &&& swi_cpu_effect(num, cpu, after)
        &&& swi_bus_effect(num, cpu, ev0, ev1)
    } else {
        &&& branched
        &&& ev1 == ev0
        &&& cpu.entered_exception(after, 0x13, cpu.r[15].wrapping_sub(2), 0x08)
    }
}

fn software_interrupt<B: Bus>(cpu: &mut Arm7tdmi, bus: &mut B, op: u32) -> (branched: bool)
    ensures
        crate::bus::extends(old(bus).events(), final(bus).events()),
        thumb_swi_effect(*old(cpu), op, *final(cpu), old(bus).events(), final(bus).events(), branched),
        final(cpu).pipeline == old(cpu).pipeline,
        final(bus).clock() >= old(bus).clock(),
        old(bus).inv() ==> final(bus).inv(),
        final(bus).setup() == old(bus).setup(),
{
    if cpu.hle_bios {
        return super::hle::swi(cpu, bus, (op & 0xFF) as u8);
    }
    let ret = cpu.r[15].wrapping_sub(2);
    cpu.enter_exception(0x13, ret, 0x08);
    true
}

// --- Decoding ----------------------------------------------------------------

/// The Thumb instruction formats, as the decoder tells them apart.
pub ghost enum ThumbFormat {
    MoveShifted,
    AddSubtract,
    Immediate,
    Alu,
    HiRegister,
    PcRelativeLoad,
    LoadStoreReg,
    LoadStoreSignExtended,
    LoadStoreImm,
    LoadStoreHalfword,
    SpRelative,
    LoadAddress,
    AddToSp,
    PushPop,
    BlockTransfer,
    SoftwareInterrupt,
    ConditionalBranch,
    UnconditionalBranch,
    LongBranchLink,
}

/// Which format a Thumb instruction decodes as.
pub open spec fn thumb_format(op: u32) -> ThumbFormat {
    let top = op >> 13;
    if top == 0 {
        if (op >> 11) & 3 == 3 { ThumbFormat::AddSubtract } else { ThumbFormat::MoveShifted }
    } else if top == 1 {
        ThumbFormat::Immediate
    } else if top == 2 {
        if (op >> 10) & 0x3F == 0x10 {
            ThumbFormat::Alu
        } else if (op >> 10) & 0x3F == 0x11 {
            ThumbFormat::HiRegister
        } else if (op >> 11) & 0x1F == 0x09 {
            ThumbFormat::PcRelativeLoad
        } else if (op >> 9) & 1 == 0 {
            ThumbFormat::LoadStoreReg
        } else {
            ThumbFormat::LoadStoreSignExtended
        }
    } else if top == 3 {
        ThumbFormat::LoadStoreImm
    } else if top == 4 {
        if (op >> 12) & 1 == 0 { ThumbFormat::LoadStoreHalfword } else { ThumbFormat::SpRelative }
    } else if top == 5 {
        if (op >> 12) & 1 == 0 {
            ThumbFormat::LoadAddress
        } else if (op >> 8) & 0xF == 0 {
            ThumbFormat::AddToSp
        } else {
            ThumbFormat::PushPop
        }
    } else if top == 6 {
        if (op >> 12) & 1 == 0 {
            ThumbFormat::BlockTransfer
        } else if (op >> 8) & 0xF == 0xF {
            ThumbFormat::SoftwareInterrupt
        } else {
            ThumbFormat::ConditionalBranch
        }
    } else if (op >> 11) & 0x1F == 0x1C {
        ThumbFormat::UnconditionalBranch
    } else {
        ThumbFormat::LongBranchLink
    }
}

/// The effect of executing the Thumb instruction `op`.
pub open spec fn thumb_execute_effect(
    cpu: Arm7tdmi,
    op: u32,
    after: Arm7tdmi,
    ev0: Seq<BusEvent>,
    ev1: Seq<BusEvent>,
    branched: bool,
) -> bool {
    match thumb_format(op) {
        ThumbFormat::MoveShifted => !branched && move_shifted_effect(cpu, op, after) && ev1 == ev0,
        ThumbFormat::AddSubtract => !branched && add_subtract_effect(cpu, op, after) && ev1 == ev0,
        ThumbFormat::Immediate => !branched && immediate_effect(cpu, op, after) && ev1 == ev0,
        ThumbFormat::Alu => !branched && alu_effect(cpu, op, after) && ev1 == ev0,
        ThumbFormat::HiRegister => hi_register_effect(cpu, op, after, branched) && ev1 == ev0,
        ThumbFormat::PcRelativeLoad => !branched && pc_relative_load_effect(cpu, op, after, ev0, ev1),
        ThumbFormat::LoadStoreReg => !branched && load_store_reg_effect(cpu, op, after, ev0, ev1),
        ThumbFormat::LoadStoreSignExtended => !branched && load_store_sign_extended_effect(cpu, op, after, ev0, ev1),
        ThumbFormat::LoadStoreImm => !branched && load_store_imm_effect(cpu, op, after, ev0, ev1),
        ThumbFormat::LoadStoreHalfword => !branched && load_store_halfword_effect(cpu, op, after, ev0, ev1),
        ThumbFormat::SpRelative => !branched && sp_relative_effect(cpu, op, after, ev0, ev1),
        ThumbFormat::LoadAddress => !branched && load_address_effect(cpu, op, after) && ev1 == ev0,
        ThumbFormat::AddToSp => !branched && add_to_sp_effect(cpu, op, after) && ev1 == ev0,
        ThumbFormat::PushPop => push_pop_effect(cpu, op, after, ev0, ev1, branched),
        ThumbFormat::BlockTransfer => block_transfer_thumb_effect(cpu, op, after, ev0, ev1, branched),
        ThumbFormat::SoftwareInterrupt => thumb_swi_effect(cpu, op, after, ev0, ev1, branched),
        ThumbFormat::ConditionalBranch => conditional_branch_effect(cpu, op, after, branched) && ev1 == ev0,
        ThumbFormat::UnconditionalBranch => branched && unconditional_branch_effect(cpu, op, after) && ev1 == ev0,
        ThumbFormat::LongBranchLink => long_branch_link_effect(cpu, op, after, branched) && ev1 == ev0,
    }
}

/// Decode and execute one Thumb instruction. Returns `true` when it wrote
/// R15 (a branch), so the pipeline must be refilled.
pub fn execute<B: Bus>(cpu: &mut Arm7tdmi, bus: &mut B, op: u16) -> (branched: bool)
    ensures
        crate::bus::extends(old(bus).events(), final(bus).events()),
        thumb_execute_effect(*old(cpu), op as u32, *final(cpu), old(bus).events(), final(bus).events(), branched),
        final(cpu).pipeline == old(cpu).pipeline,
        final(bus).clock() >= old(bus).clock(),
        old(bus).inv() ==> final(bus).inv(),
        final(bus).setup() == old(bus).setup(),
{
    let op = op as u32;
    let top = op >> 13;
    if top == 0 {
        if (op >> 11) & 3 == 3 { add_subtract(cpu, op) } else { move_shifted(cpu, op) }
    } else if top == 1 {
        immediate(cpu, op)
    } else if top == 2 {
        if (op >> 10) & 0x3F == 0x10 {
            alu(cpu, op)
        } else if (op >> 10) & 0x3F == 0x11 {
            hi_register(cpu, op)
        } else if (op >> 11) & 0x1F == 0x09 {
            pc_relative_load(cpu, bus, op)
        } else if (op >> 9) & 1 == 0 {
            load_store_reg(cpu, bus, op)
        } else {
            load_store_sign_extended(cpu, bus, op)
        }
    } else if top == 3 {
        load_store_imm(cpu, bus, op)
    } else if top == 4 {
        if (op >> 12) & 1 == 0 { load_store_halfword(cpu, bus, op) } else { sp_relative(cpu, bus, op) }
    } else if top == 5 {
        if (op >> 12) & 1 == 0 {
            load_address(cpu, op)
        } else if (op >> 8) & 0xF == 0 {
            add_to_sp(cpu, op)
        } else {
            push_pop(cpu, bus, op)
        }
    } else if top == 6 {
        if (op >> 12) & 1 == 0 {
            block_transfer(cpu, bus, op)
        } else if (op >> 8) & 0xF == 0xF {
            software_interrupt(cpu, bus, op)
        } else {
            conditional_branch(cpu, op)
        }
    } else if (op >> 11) & 0x1F == 0x1C {
        unconditional_branch(cpu, op)
    } else {
        long_branch_link(cpu, op)
    }
}

/// The register and list fields the Thumb block transfers and high-register
/// operations decode, and the ARM block-transfer words they become.
proof fn lemma_thumb_fields(op: u32, rbw: u32)
    by (bit_vector)
    ensures
        ((op & 7) | ((op >> 4) & 8)) < 16,
        (op & 0xFF != 0 || (op >> 8) & 1 == 1) ==> (0xE8BD_0000 | (op & 0xFF) | (((op >> 8) & 1) << 15)) & 0xFFFF
            != 0,
        (op & 0xFF != 0 || (op >> 8) & 1 == 1) ==> (0xE92D_0000 | (op & 0xFF) | (((op >> 8) & 1) << 14)) & 0xFFFF
            != 0,
        (op >> 8) & 1 == 1 ==> {
            let aop = 0xE8BD_0000 | (op & 0xFF) | (((op >> 8) & 1) << 15);
            ((aop & 0xFFFF) >> 15) & 1 == 1 && (aop >> 22) & 1 == 0 && (aop >> 20) & 1 == 1
        },
        (op & 0xFF != 0 && rbw < 8) ==> (0xE8B0_0000u32 | (rbw << 16) | (op & 0xFF)) & 0xFFFF != 0,
        (op & 0xFF != 0 && rbw < 8) ==> (0xE8A0_0000u32 | (rbw << 16) | (op & 0xFF)) & 0xFFFF != 0,
{
}

} // verus!
