//! 32-bit ARM instruction execution.

use vstd::prelude::*;
use super::barrel;
use super::barrel::{lsl_spec, lsr_spec, asr_spec, ror_spec, rotate_immediate_spec, ror32};
use super::psr::{Flags, flags_of};
use super::hle::{div_applied, div_operands, div_patched, swi_bus_effect, swi_cpu_effect};
use super::{Arm7tdmi, addc, addc_spec, set_flags, set_flags_word, has_spsr_mode, reg_field, same_register};
use crate::bus::{Access, Bus, BusEvent, Width, read_event, write_event, event_value};

verus! {

broadcast use crate::bus::group_extends;

/// The shifter operand of a data-processing instruction and its carry-out.
pub open spec fn operand2_spec(cpu: Arm7tdmi, op: u32, extra: u32) -> (u32, bool) {
    let cin = cpu.cpsr & 0x2000_0000 != 0;
    if (op >> 25) & 1 == 1 {
        rotate_immediate_spec(op, cin)
    } else {
        let v = cpu.read_reg((op & 0xF) as int, extra);
        let imm = (op >> 4) & 1 == 0;
        let amount = if imm { (op >> 7) & 0x1F } else { cpu.r[((op >> 8) & 0xF) as int] & 0xFF };
        let t = (op >> 5) & 3;
        if t == 0 {
            lsl_spec(v, amount, cin)
        } else if t == 1 {
            lsr_spec(v, amount, cin, imm)
        } else if t == 2 {
            asr_spec(v, amount, cin, imm)
        } else {
            ror_spec(v, amount, cin, imm)
        }
    }
}

/// The ALU: `(result, carry, overflow, logical)` of data-processing opcode
/// `opcode` on first operand `a` and shifter output `(b, shifter_c)`.
pub open spec fn alu_spec(opcode: u32, a: u32, b: u32, shifter_c: bool, cin: bool) -> (u32, bool, bool, bool) {
    if opcode == 0x0 || opcode == 0x8 {
        (a & b, shifter_c, false, true)
    } else if opcode == 0x1 || opcode == 0x9 {
        (a ^ b, shifter_c, false, true)
    } else if opcode == 0x2 || opcode == 0xA {
        let (r, c, v) = addc_spec(a, !b, true);
        (r, c, v, false)
    } else if opcode == 0x3 {
        let (r, c, v) = addc_spec(b, !a, true);
        (r, c, v, false)
    } else if opcode == 0x4 || opcode == 0xB {
        let (r, c, v) = addc_spec(a, b, false);
        (r, c, v, false)
    } else if opcode == 0x5 {
        let (r, c, v) = addc_spec(a, b, cin);
        (r, c, v, false)
    } else if opcode == 0x6 {
        let (r, c, v) = addc_spec(a, !b, cin);
        (r, c, v, false)
    } else if opcode == 0x7 {
        let (r, c, v) = addc_spec(b, !a, cin);
        (r, c, v, false)
    } else if opcode == 0xC {
        (a | b, shifter_c, false, true)
    } else if opcode == 0xD {
        (b, shifter_c, false, true)
    } else if opcode == 0xE {
        (a & !b, shifter_c, false, true)
    } else {
        (!b, shifter_c, false, true)
    }
}

/// The effect of the `S`-with-Rd=15 forms followed by setting R15 to `pc`:
/// restore CPSR from the current SPSR, or in a mode without one just set the
/// flags.
pub open spec fn restore_or_set_flags_effect(
    cpu: Arm7tdmi,
    after: Arm7tdmi,
    result: u32,
    carry: bool,
    overflow: bool,
    logical: bool,
    pc: u32,
) -> bool {
    if has_spsr_mode(cpu.cpsr) {
        cpu.switched_then_pc(after, cpu.spsr_of(cpu.cpsr), pc)
    } else {
        cpu.with_regs_cpsr(after, cpu.r@.update(15, pc), set_flags_word(cpu.cpsr, result, carry, overflow, logical))
    }
}

/// The effect of a data-processing instruction; `branched` reports a write
/// to R15.
pub open spec fn data_processing_effect(cpu: Arm7tdmi, op: u32, after: Arm7tdmi, branched: bool) -> bool {
    let opcode = (op >> 21) & 0xF;
    let s = (op >> 20) & 1 == 1;
    let rn = ((op >> 16) & 0xF) as int;
    let rd = ((op >> 12) & 0xF) as int;
    let extra: u32 = if (op >> 25) & 1 == 0 && (op >> 4) & 1 == 1 { 4 } else { 0 };
    let (op2, sc) = operand2_spec(cpu, op, extra);
    let a = cpu.read_reg(rn, extra);
    let (res, c, v, logical) = alu_spec(opcode, a, op2, sc, cpu.cpsr & 0x2000_0000 != 0);
    if 0x8 <= opcode <= 0xB {
        &&& !branched
        &&& if rd == 15 && s {
            restore_or_set_flags_effect(cpu, after, res, c, v, logical, cpu.r[15])
        } else {
            cpu.with_cpsr_word(after, set_flags_word(cpu.cpsr, res, c, v, logical))
        }
    } else if rd == 15 {
        &&& branched
        &&& if s {
            restore_or_set_flags_effect(cpu, after, res, c, v, logical, res)
        } else {
            cpu.with_regs(after, cpu.r@.update(15, res))
        }
    } else {
        &&& !branched
        &&& if s {
            cpu.with_regs_cpsr(after, cpu.r@.update(rd, res), set_flags_word(cpu.cpsr, res, c, v, logical))
        } else {
            cpu.with_regs(after, cpu.r@.update(rd, res))
        }
    }
}

/// Register `i` with R15 reading `extra` bytes further ahead.
fn read_reg(cpu: &Arm7tdmi, i: usize, extra: u32) -> (v: u32)
    requires
        i < 16,
    ensures
        v == cpu.read_reg(i as int, extra),
{
    if i == 15 {
        cpu.r[15].wrapping_add(extra)
    } else {
        cpu.r[i]
    }
}

/// The shifter operand and its carry-out.
fn operand2(cpu: &Arm7tdmi, op: u32, extra: u32) -> (r: (u32, bool))
    ensures
        r == operand2_spec(*cpu, op, extra),
{
    if (op >> 25) & 1 == 1 {
        return barrel::rotate_immediate(op, cpu.carry());
    }
    let rm = reg_field(op, 0);
    assert(op >> 0u32 == op) by { crate::bits::lemma_u32_bits(op, 0); }
    let shift_type = (op >> 5) & 3;
    let cin = cpu.carry();
    let v = read_reg(cpu, rm, extra);
    let imm = (op >> 4) & 1 == 0;
    let amount = if imm {
        (op >> 7) & 0x1F
    } else {
        let rs = reg_field(op, 8);
        cpu.r[rs] & 0xFF
    };
    if shift_type == 0 {
        barrel::lsl(v, amount, cin)
    } else if shift_type == 1 {
        barrel::lsr(v, amount, cin, imm)
    } else if shift_type == 2 {
        barrel::asr(v, amount, cin, imm)
    } else {
        barrel::ror(v, amount, cin, imm)
    }
}

/// `S`-with-Rd=15: restore CPSR from the current SPSR, or in a mode without
/// one fall back to a plain flag update.
fn restore_or_set_flags(cpu: &mut Arm7tdmi, result: u32, carry: bool, overflow: bool, logical: bool)
    ensures
        restore_or_set_flags_effect(*old(cpu), *final(cpu), result, carry, overflow, logical, old(cpu).r[15]),
{
    if cpu.has_spsr() {
        let spsr = cpu.current_spsr();
        cpu.write_cpsr(spsr);
    } else {
        set_flags(cpu, result, carry, overflow, logical);
        assert(cpu.r@ =~= old(cpu).r@.update(15, old(cpu).r[15]));
    }
}

/// The sixteen ALU operations.
fn alu(opcode: u32, a: u32, b: u32, shifter_c: bool, cin: bool) -> (r: (u32, bool, bool, bool))
    requires
        opcode < 16,
    ensures
        r == alu_spec(opcode, a, b, shifter_c, cin),
{
    match opcode {
        0x0 | 0x8 => (a & b, shifter_c, false, true),
        0x1 | 0x9 => (a ^ b, shifter_c, false, true),
        0x2 | 0xA => {
            let (r, c, v) = addc(a, !b, true);
            (r, c, v, false)
        },
        0x3 => {
            let (r, c, v) = addc(b, !a, true);
            (r, c, v, false)
        },
        0x4 | 0xB => {
            let (r, c, v) = addc(a, b, false);
            (r, c, v, false)
        },
        0x5 => {
            let (r, c, v) = addc(a, b, cin);
            (r, c, v, false)
        },
        0x6 => {
            let (r, c, v) = addc(a, !b, cin);
            (r, c, v, false)
        },
        0x7 => {
            let (r, c, v) = addc(b, !a, cin);
            (r, c, v, false)
        },
        0xC => (a | b, shifter_c, false, true),
        0xD => (b, shifter_c, false, true),
        0xE => (a & !b, shifter_c, false, true),
        _ => (!b, shifter_c, false, true),
    }
}

/// Data processing: the ALU operations with optional flag setting.
fn data_processing(cpu: &mut Arm7tdmi, op: u32) -> (branched: bool)
    ensures
        data_processing_effect(*old(cpu), op, *final(cpu), branched),
{
    let opcode4 = (op >> 21) & 0xF;
    let s = (op >> 20) & 1 == 1;
    let rn = reg_field(op, 16);
    let rd = reg_field(op, 12);
    let reg_shift = (op >> 25) & 1 == 0 && (op >> 4) & 1 == 1;
    let pc_extra: u32 = if reg_shift { 4 } else { 0 };
    let cin = cpu.carry();
    let (op2, shifter_c) = operand2(cpu, op, pc_extra);
    let a = read_reg(cpu, rn, pc_extra);
    assert(opcode4 < 16) by {
        crate::bits::lemma_u32_bits(op >> 21, 0xF);
    }
    let (result, carry, overflow, logical) = alu(opcode4, a, op2, shifter_c, cin);
    let ghost c0 = *cpu;
    if 0x8 <= opcode4 && opcode4 <= 0xB {
        if rd == 15 && s {
            restore_or_set_flags(cpu, result, carry, overflow, logical);
        } else {
            set_flags(cpu, result, carry, overflow, logical);
        }
        return false;
    }
    if rd == 15 {
        if s {
            restore_or_set_flags(cpu, result, carry, overflow, logical);
        }
        let ghost mid = *cpu;
        cpu.r[15] = result;
        proof {
            assert(cpu.r@ =~= mid.r@.update(15, result));
            if s {
                if has_spsr_mode(c0.cpsr) {
                    assert(c0.switched_then_pc(mid, c0.spsr_of(c0.cpsr), c0.r[15]));
                    assert forall|m: u32, j: int| 0 <= j < 15 implies #[trigger] cpu.reg_in_mode(m, j)
                        == c0.reg_in_mode(m, j) by {
                        assert(cpu.r[j] == mid.r[j]);
                        assert(cpu.reg_in_mode(m, j) == mid.reg_in_mode(m, j));
                    }
                    assert forall|i: int| 0 <= i < 8 implies cpu.r[i] == c0.r[i] by {
                        assert(cpu.r[i] == mid.r[i]);
                    }
                    assert forall|m: u32| #[trigger] cpu.spsr_of(m) == c0.spsr_of(m) by {
                        assert(cpu.spsr_of(m) == mid.spsr_of(m));
                    }
                    assert(c0.switched_then_pc(*cpu, c0.spsr_of(c0.cpsr), result));
                } else {
                    assert(cpu.r@ =~= c0.r@.update(15, result));
                }
            } else {
                assert(cpu.r@ =~= c0.r@.update(15, result));
            }
        }
        return true;
    }
    cpu.r[rd] = result;
    assert(cpu.r@ =~= c0.r@.update(rd as int, result));
    if s {
        set_flags(cpu, result, carry, overflow, logical);
    }
    false
}

/// The sign-extended, word-scaled 24-bit branch offset.
pub open spec fn branch_offset(op: u32) -> u32 {
    if op & 0x0080_0000 != 0 {
        ((op & 0x00FF_FFFF) << 2) | 0xFC00_0000
    } else {
        (op & 0x00FF_FFFF) << 2
    }
}

/// B / BL: the PC moves by the branch offset; BL also leaves the return
/// address in LR.
pub open spec fn branch_effect(cpu: Arm7tdmi, op: u32, after: Arm7tdmi) -> bool {
    cpu.with_regs(
        after,
        if (op >> 24) & 1 == 1 {
            cpu.r@.update(14, cpu.r[15].wrapping_sub(4)).update(15, cpu.r[15].wrapping_add(branch_offset(op)))
        } else {
            cpu.r@.update(15, cpu.r[15].wrapping_add(branch_offset(op)))
        },
    )
}

/// B / BL: PC-relative branch; BL also leaves the return address in LR.
fn branch(cpu: &mut Arm7tdmi, op: u32) -> (branched: bool)
    ensures
        branched,
        branch_effect(*old(cpu), op, *final(cpu)),
{
    let link = (op >> 24) & 1 == 1;
    let offset = if op & 0x0080_0000 != 0 {
        ((op & 0x00FF_FFFF) << 2) | 0xFC00_0000
    } else {
        (op & 0x00FF_FFFF) << 2
    };
    let ghost c0 = *cpu;
    let pc = cpu.r[15];
    if link {
        cpu.r[14] = pc.wrapping_sub(4);
    }
    cpu.r[15] = pc.wrapping_add(offset);
    assert(cpu.r@ =~= (if link {
        c0.r@.update(14, pc.wrapping_sub(4)).update(15, pc.wrapping_add(offset))
    } else {
        c0.r@.update(15, pc.wrapping_add(offset))
    }));
    true
}

/// BX: the PC moves to Rn with its low bit cleared; that bit selects Thumb
/// state.
pub open spec fn branch_exchange_effect(cpu: Arm7tdmi, op: u32, after: Arm7tdmi) -> bool {
    let target = cpu.r[(op & 0xF) as int];
    cpu.with_regs_cpsr(
        after,
        cpu.r@.update(15, target & 0xFFFF_FFFE),
        if target & 1 != 0 { cpu.cpsr | 0x20 } else { cpu.cpsr & 0xFFFF_FFDF },
    )
}

/// BX: branch to Rn, entering Thumb state when the target's low bit is set.
fn branch_exchange(cpu: &mut Arm7tdmi, op: u32) -> (branched: bool)
    ensures
        branched,
        branch_exchange_effect(*old(cpu), op, *final(cpu)),
{
    let rn = reg_field(op, 0);
    assert(op >> 0u32 == op) by { crate::bits::lemma_u32_bits(op, 0); }
    let target = cpu.r[rn];
    if target & 1 != 0 {
        cpu.cpsr = cpu.cpsr | 0x20;
    } else {
        cpu.cpsr = cpu.cpsr & 0xFFFF_FFDF;
    }
    cpu.r[15] = target & 0xFFFF_FFFE;
    assert(cpu.r@ =~= old(cpu).r@.update(15, target & 0xFFFF_FFFE));
    true
}

/// Internal cycle count `m` of the early-terminating multiplier: one cycle per
/// multiplier byte until the remaining high bits are all zeros or all ones.
pub open spec fn multiply_m_spec(rs: u32) -> u32 {
    let hi = rs & 0xFFFF_FF00;
    if hi == 0 || hi == 0xFFFF_FF00 {
        1
    } else if rs & 0xFFFF_0000 == 0 || rs & 0xFFFF_0000 == 0xFFFF_0000 {
        2
    } else if rs & 0xFF00_0000 == 0 || rs & 0xFF00_0000 == 0xFF00_0000 {
        3
    } else {
        4
    }
}

fn multiply_m(rs: u32) -> (m: u32)
    ensures
        m == multiply_m_spec(rs),
        1 <= m <= 4,
{
    let hi = rs & 0xFFFF_FF00;
    if hi == 0 || hi == 0xFFFF_FF00 {
        1
    } else if rs & 0xFFFF_0000 == 0 || rs & 0xFFFF_0000 == 0xFFFF_0000 {
        2
    } else if rs & 0xFF00_0000 == 0 || rs & 0xFF00_0000 == 0xFF00_0000 {
        3
    } else {
        4
    }
}

/// The effect of MUL / MLA. The C flag is left as it is: on ARMv4 it is
/// UNPREDICTABLE after a multiply.
pub open spec fn multiply_effect(cpu: Arm7tdmi, op: u32, after: Arm7tdmi, ev0: Seq<BusEvent>, ev1: Seq<BusEvent>, branched: bool) -> bool {
    let accumulate = (op >> 21) & 1 == 1;
    let s = (op >> 20) & 1 == 1;
    let rd = ((op >> 16) & 0xF) as int;
    let rmv = cpu.read_reg((op & 0xF) as int, 4);
    let rsv = cpu.read_reg(((op >> 8) & 0xF) as int, 4);
    let rnv = cpu.read_reg(((op >> 12) & 0xF) as int, 4);
    let product = rmv.wrapping_mul(rsv);
    let result = if accumulate { product.wrapping_add(rnv) } else { product };
    let m = multiply_m_spec(rsv);
    &&& ev1 == ev0.push(BusEvent::Tick { cycles: if accumulate { (m + 1) as u32 } else { m } })
    &&& branched == (rd == 15)
    &&& if s {
        cpu.with_regs_cpsr(after, cpu.r@.update(rd, result), crate::cpu::set_nz_word(cpu.cpsr, result))
    } else {
        cpu.with_regs(after, cpu.r@.update(rd, result))
    }
}

/// MUL / MLA: 32-bit multiply, optionally accumulating Rn and setting N/Z.
fn multiply<B: Bus>(cpu: &mut Arm7tdmi, bus: &mut B, op: u32) -> (branched: bool)
    ensures
        crate::bus::extends(old(bus).events(), final(bus).events()),
        multiply_effect(*old(cpu), op, *final(cpu), old(bus).events(), final(bus).events(), branched),
        final(bus).clock() >= old(bus).clock(),
        old(bus).inv() ==> final(bus).inv(),
        final(bus).setup() == old(bus).setup(),
{
    let accumulate = (op >> 21) & 1 == 1;
    let set = (op >> 20) & 1 == 1;
    let rd = reg_field(op, 16);
    let rn = reg_field(op, 12);
    let rs = reg_field(op, 8);
    let rm = reg_field(op, 0);
    assert(op >> 0u32 == op) by { crate::bits::lemma_u32_bits(op, 0); }
    let rmv = read_reg(cpu, rm, 4);
    let rsv = read_reg(cpu, rs, 4);
    let rnv = read_reg(cpu, rn, 4);
    let m = multiply_m(rsv);
    let mul = rmv.wrapping_mul(rsv);
    let result = if accumulate { mul.wrapping_add(rnv) } else { mul };
    cpu.r[rd] = result;
    assert(cpu.r@ =~= old(cpu).r@.update(rd as int, result));
    bus.tick(if accumulate { m + 1 } else { m });
    if set {
        crate::cpu::set_nz(cpu, result);
    }
    rd == 15
}

/// The 64-bit product of a long multiply, before accumulation.
pub open spec fn long_product(rmv: u32, rsv: u32, signed: bool) -> u64 {
    if signed {
        ((rmv as i32) as int * (rsv as i32) as int) as u64
    } else {
        ((rmv as int) * (rsv as int)) as u64
    }
}

/// The effect of UMULL / UMLAL / SMULL / SMLAL.
pub open spec fn multiply_long_effect(cpu: Arm7tdmi, op: u32, after: Arm7tdmi, ev0: Seq<BusEvent>, ev1: Seq<BusEvent>, branched: bool) -> bool {
    let signed = (op >> 22) & 1 == 1;
    let accumulate = (op >> 21) & 1 == 1;
    let s = (op >> 20) & 1 == 1;
    let rdhi = ((op >> 16) & 0xF) as int;
    let rdlo = ((op >> 12) & 0xF) as int;
    let rmv = cpu.read_reg((op & 0xF) as int, 4);
    let rsv = cpu.read_reg(((op >> 8) & 0xF) as int, 4);
    let acc: u64 = if accumulate {
        ((cpu.read_reg(rdhi, 4) as u64) << 32) | (cpu.read_reg(rdlo, 4) as u64)
    } else {
        0
    };
    let p = long_product(rmv, rsv, signed);
    let result = if accumulate { p.wrapping_add(acc) } else { p };
    let m = multiply_m_spec(rsv);
    let regs = cpu.r@.update(rdlo, result as u32).update(rdhi, (result >> 32) as u32);
    &&& ev1 == ev0.push(BusEvent::Tick { cycles: if accumulate { (m + 2) as u32 } else { (m + 1) as u32 } })
    &&& branched == (rdhi == 15 || rdlo == 15)
    &&& if s {
        let f = flags_of(cpu.cpsr);
        cpu.with_regs_cpsr(
            after,
            regs,
            super::psr::with_flags(Flags { n: result & 0x8000_0000_0000_0000 != 0, z: result == 0, c: f.c, v: f.v }, cpu.cpsr),
        )
    } else {
        cpu.with_regs(after, regs)
    }
}

/// UMULL / UMLAL / SMULL / SMLAL: 32x32 -> 64-bit multiply into RdHi:RdLo.
fn multiply_long<B: Bus>(cpu: &mut Arm7tdmi, bus: &mut B, op: u32) -> (branched: bool)
    ensures
        crate::bus::extends(old(bus).events(), final(bus).events()),
        multiply_long_effect(*old(cpu), op, *final(cpu), old(bus).events(), final(bus).events(), branched),
        final(bus).clock() >= old(bus).clock(),
        old(bus).inv() ==> final(bus).inv(),
        final(bus).setup() == old(bus).setup(),
{
    let signed = (op >> 22) & 1 == 1;
    let accumulate = (op >> 21) & 1 == 1;
    let set = (op >> 20) & 1 == 1;
    let rdhi = reg_field(op, 16);
    let rdlo = reg_field(op, 12);
    let rs = reg_field(op, 8);
    let rm = reg_field(op, 0);
    assert(op >> 0u32 == op) by { crate::bits::lemma_u32_bits(op, 0); }
    let rmv = read_reg(cpu, rm, 4);
    let rsv = read_reg(cpu, rs, 4);
    let acc: u64 = if accumulate {
        ((read_reg(cpu, rdhi, 4) as u64) << 32) | (read_reg(cpu, rdlo, 4) as u64)
    } else {
        0
    };
    let m = multiply_m(rsv);
    let product: u64 = if signed {
        let a = rmv as i32 as i64;
        let b = rsv as i32 as i64;
        assert(-0x8000_0000 <= a <= 0x7FFF_FFFF && -0x8000_0000 <= b <= 0x7FFF_FFFF ==> -0x4000_0000_0000_0000 <= a * b <= 0x4000_0000_0000_0000)
            by (nonlinear_arith);
        (a * b) as u64
    } else {
        let a = rmv as u64;
        let b = rsv as u64;
        assert(a <= 0xFFFF_FFFF && b <= 0xFFFF_FFFF ==> a * b <= 0xFFFF_FFFE_0000_0001) by (nonlinear_arith);
        a * b
    };
    let result = if accumulate { product.wrapping_add(acc) } else { product };
    cpu.r[rdlo] = result as u32;
    cpu.r[rdhi] = (result >> 32) as u32;
    assert(cpu.r@ =~= old(cpu).r@.update(rdlo as int, result as u32).update(rdhi as int, (result >> 32) as u32));
    bus.tick(if accumulate { m + 2 } else { m + 1 });
    if set {
        let mut f = Flags::from_cpsr(cpu.cpsr);
        f.n = result & 0x8000_0000_0000_0000 != 0;
        f.z = result == 0;
        cpu.cpsr = f.to_cpsr(cpu.cpsr);
    }
    rdhi == 15 || rdlo == 15
}

/// The effect of SWP / SWPB: load [Rn] into Rd, then store Rm to [Rn].
pub open spec fn swap_effect(cpu: Arm7tdmi, op: u32, after: Arm7tdmi, ev0: Seq<BusEvent>, ev1: Seq<BusEvent>, branched: bool) -> bool {
    let byte = (op >> 22) & 1 == 1;
    let rd = ((op >> 12) & 0xF) as int;
    let addr = cpu.read_reg(((op >> 16) & 0xF) as int, 4);
    let src = cpu.read_reg((op & 0xF) as int, 4);
    let raw = event_value(ev1[ev0.len() as int]);
    let width = if byte { Width::Byte } else { Width::Word };
    let loaded = if byte { raw } else { ror32(raw, ((addr & 3) * 8) as u32) };
    &&& ev1 == ev0.push(read_event(width, addr, Access::NonSeq, raw)).push(
        write_event(width, addr, Access::NonSeq, if byte { src & 0xFF } else { src }),
    )
    &&& branched == (rd == 15)
    &&& cpu.with_regs(after, cpu.r@.update(rd, loaded))
}

/// SWP / SWPB.
fn swap<B: Bus>(cpu: &mut Arm7tdmi, bus: &mut B, op: u32) -> (branched: bool)
    ensures
        crate::bus::extends(old(bus).events(), final(bus).events()),
        swap_effect(*old(cpu), op, *final(cpu), old(bus).events(), final(bus).events(), branched),
        final(bus).clock() >= old(bus).clock(),
        old(bus).inv() ==> final(bus).inv(),
        final(bus).setup() == old(bus).setup(),
{
    let byte = (op >> 22) & 1 == 1;
    let rn = reg_field(op, 16);
    let rd = reg_field(op, 12);
    let rm = reg_field(op, 0);
    assert(op >> 0u32 == op) by { crate::bits::lemma_u32_bits(op, 0); }
    let addr = read_reg(cpu, rn, 4);
    let src = read_reg(cpu, rm, 4);
    let value = if byte {
        let temp = bus.read8(addr, Access::NonSeq) as u32;
        proof { crate::bits::lemma_u32_bits(src, 0); }
        bus.write8(addr, (src & 0xFF) as u8, Access::NonSeq);
        temp
    } else {
        let raw = bus.read32(addr, Access::NonSeq);
        let temp = barrel::rotate_right(raw, barrel::word_rotation(addr));
        bus.write32(addr, src, Access::NonSeq);
        temp
    };
    cpu.r[rd] = value;
    assert(cpu.r@ =~= old(cpu).r@.update(rd as int, value));
    assert(bus.events().subrange(0, old(bus).events().len() as int) =~= old(bus).events());
    rd == 15
}

/// The PSR byte lanes an MSR field mask selects; User mode may only write the
/// flags byte.
pub open spec fn msr_mask(field: u32, user: bool) -> u32 {
    let m = (if field & 1 != 0 { 0x0000_00FFu32 } else { 0u32 }) | (if field & 2 != 0 {
        0x0000_FF00u32
    } else {
        0u32
    }) | (if field & 4 != 0 { 0x00FF_0000u32 } else { 0u32 }) | (if field & 8 != 0 {
        0xFF00_0000u32
    } else {
        0u32
    });
    if user {
        m & 0xFF00_0000
    } else {
        m
    }
}

/// The effect of MRS / MSR.
pub open spec fn psr_transfer_effect(cpu: Arm7tdmi, op: u32, after: Arm7tdmi) -> bool {
    let use_spsr = (op >> 22) & 1 == 1;
    if (op >> 21) & 1 == 0 {
        let rd = ((op >> 12) & 0xF) as int;
        let v = if use_spsr && has_spsr_mode(cpu.cpsr) { cpu.spsr_of(cpu.cpsr) } else { cpu.cpsr };
        cpu.with_regs(after, cpu.r@.update(rd, v))
    } else {
        let value = if (op >> 25) & 1 == 1 {
            rotate_immediate_spec(op, cpu.cpsr & 0x2000_0000 != 0).0
        } else {
            cpu.r[(op & 0xF) as int]
        };
        let mask = msr_mask((op >> 16) & 0xF, cpu.cpsr & 0x1F == 0x10);
        if use_spsr {
            if has_spsr_mode(cpu.cpsr) {
                cpu.spsr_set(after, (cpu.spsr_of(cpu.cpsr) & !mask) | (value & mask))
            } else {
                after == cpu
            }
        } else {
            cpu.switched(after, (cpu.cpsr & !mask) | (value & mask))
        }
    }
}

/// MRS / MSR: move a PSR to or from a register (or an immediate).
fn psr_transfer(cpu: &mut Arm7tdmi, op: u32) -> (branched: bool)
    ensures
        !branched,
        psr_transfer_effect(*old(cpu), op, *final(cpu)),
{
    let use_spsr = (op >> 22) & 1 == 1;
    if (op >> 21) & 1 == 0 {
        let rd = reg_field(op, 12);
        let v = if use_spsr && cpu.has_spsr() { cpu.current_spsr() } else { cpu.cpsr };
        cpu.r[rd] = v;
        assert(cpu.r@ =~= old(cpu).r@.update(rd as int, v));
        return false;
    }
    let value = if (op >> 25) & 1 == 1 {
        barrel::rotate_immediate(op, cpu.carry()).0
    } else {
        let rm = reg_field(op, 0);
        assert(op >> 0u32 == op) by { crate::bits::lemma_u32_bits(op, 0); }
        cpu.r[rm]
    };
    let field = (op >> 16) & 0xF;
    let m0: u32 = if field & 1 != 0 { 0x0000_00FF } else { 0 };
    let m1: u32 = if field & 2 != 0 { 0x0000_FF00 } else { 0 };
    let m2: u32 = if field & 4 != 0 { 0x00FF_0000 } else { 0 };
    let m3: u32 = if field & 8 != 0 { 0xFF00_0000 } else { 0 };
    let mut mask = m0 | m1 | m2 | m3;
    if cpu.cpsr & 0x1F == 0x10 {
        mask = mask & 0xFF00_0000;
    }
    if use_spsr {
        if cpu.has_spsr() {
            let new = (cpu.current_spsr() & !mask) | (value & mask);
            cpu.set_current_spsr(new);
        }
    } else {
        let new = (cpu.cpsr & !mask) | (value & mask);
        cpu.write_cpsr(new);
    }
    false
}

/// The address arithmetic shared by the single transfers: `(address, written-back base)`.
pub open spec fn transfer_addr(base: u32, offset: u32, pre: bool, up: bool) -> (u32, u32) {
    let oa = if up { base.wrapping_add(offset) } else { base.wrapping_sub(offset) };
    (if pre { oa } else { base }, oa)
}

/// The offset of LDR / STR: a 12-bit immediate or an immediate-shifted register.
pub open spec fn sdt_offset(cpu: Arm7tdmi, op: u32) -> u32 {
    if (op >> 25) & 1 == 1 {
        let v = cpu.r[(op & 0xF) as int];
        let amount = (op >> 7) & 0x1F;
        let c = cpu.cpsr & 0x2000_0000 != 0;
        let t = (op >> 5) & 3;
        if t == 0 {
            lsl_spec(v, amount, c).0
        } else if t == 1 {
            lsr_spec(v, amount, c, true).0
        } else if t == 2 {
            asr_spec(v, amount, c, true).0
        } else {
            ror_spec(v, amount, c, true).0
        }
    } else {
        op & 0xFFF
    }
}

/// The effect of LDR / STR (word or byte).
pub open spec fn single_transfer_effect(cpu: Arm7tdmi, op: u32, after: Arm7tdmi, ev0: Seq<BusEvent>, ev1: Seq<BusEvent>, branched: bool) -> bool {
    let pre = (op >> 24) & 1 == 1;
    let up = (op >> 23) & 1 == 1;
    let byte = (op >> 22) & 1 == 1;
    let writeback = (op >> 21) & 1 == 1;
    let load = (op >> 20) & 1 == 1;
    let rn = ((op >> 16) & 0xF) as int;
    let rd = ((op >> 12) & 0xF) as int;
    let (addr, oa) = transfer_addr(cpu.r[rn], sdt_offset(cpu, op), pre, up);
    let do_wb = !pre || writeback;
    let wb_value = if rn == 15 { oa.wrapping_add(4) } else { oa };
    let regs = if do_wb { cpu.r@.update(rn, wb_value) } else { cpu.r@ };
    let width = if byte { Width::Byte } else { Width::Word };
    if load {
        let raw = event_value(ev1[ev0.len() as int]);
        let value = if byte { raw } else { ror32(raw, ((addr & 3) * 8) as u32) };
        &&& ev1 == ev0.push(read_event(width, addr, Access::NonSeq, raw))
        &&& branched == ((do_wb && rn == 15) || rd == 15)
        &&& cpu.with_regs(after, regs.update(rd, value))
    } else {
        let value = if rd == 15 { cpu.r[15].wrapping_add(4) } else { cpu.r[rd] };
        &&& ev1 == ev0.push(write_event(width, addr, Access::NonSeq, if byte { value & 0xFF } else { value }))
        &&& branched == (do_wb && rn == 15)
        &&& cpu.with_regs(after, regs)
    }
}

/// LDR / STR: single word or byte transfer.
fn single_data_transfer<B: Bus>(cpu: &mut Arm7tdmi, bus: &mut B, op: u32) -> (branched: bool)
    ensures
        crate::bus::extends(old(bus).events(), final(bus).events()),
        single_transfer_effect(*old(cpu), op, *final(cpu), old(bus).events(), final(bus).events(), branched),
        final(bus).clock() >= old(bus).clock(),
        old(bus).inv() ==> final(bus).inv(),
        final(bus).setup() == old(bus).setup(),
{
    let reg_offset = (op >> 25) & 1 == 1;
    let pre = (op >> 24) & 1 == 1;
    let up = (op >> 23) & 1 == 1;
    let byte = (op >> 22) & 1 == 1;
    let writeback = (op >> 21) & 1 == 1;
    let load = (op >> 20) & 1 == 1;
    let rn = reg_field(op, 16);
    let rd = reg_field(op, 12);
    let offset = if reg_offset {
        let rm = reg_field(op, 0);
        assert(op >> 0u32 == op) by { crate::bits::lemma_u32_bits(op, 0); }
        let amount = (op >> 7) & 0x1F;
        let c = cpu.carry();
        let v = cpu.r[rm];
        let t = (op >> 5) & 3;
        if t == 0 {
            barrel::lsl(v, amount, c).0
        } else if t == 1 {
            barrel::lsr(v, amount, c, true).0
        } else if t == 2 {
            barrel::asr(v, amount, c, true).0
        } else {
            barrel::ror(v, amount, c, true).0
        }
    } else {
        op & 0xFFF
    };
    let base = cpu.r[rn];
    let offset_addr = if up { base.wrapping_add(offset) } else { base.wrapping_sub(offset) };
    let addr = if pre { offset_addr } else { base };
    let do_wb = !pre || writeback;
    let wb_value = if rn == 15 { offset_addr.wrapping_add(4) } else { offset_addr };
    let ghost c0 = *cpu;
    if load {
        let value = if byte {
            bus.read8(addr, Access::NonSeq) as u32
        } else {
            let raw = bus.read32(addr, Access::NonSeq);
            barrel::rotate_right(raw, barrel::word_rotation(addr))
        };
        if do_wb {
            cpu.r[rn] = wb_value;
        }
        cpu.r[rd] = value;
        proof {
            let regs = if do_wb { c0.r@.update(rn as int, wb_value) } else { c0.r@ };
            assert(cpu.r@ =~= regs.update(rd as int, value));
        }
        (do_wb && rn == 15) || rd == 15
    } else {
        let value = if rd == 15 { cpu.r[15].wrapping_add(4) } else { cpu.r[rd] };
        if byte {
            proof { crate::bits::lemma_u32_bits(value, 0); }
            bus.write8(addr, (value & 0xFF) as u8, Access::NonSeq);
        } else {
            bus.write32(addr, value, Access::NonSeq);
        }
        if do_wb {
            cpu.r[rn] = wb_value;
        }
        proof {
            let regs = if do_wb { c0.r@.update(rn as int, wb_value) } else { c0.r@ };
            assert(cpu.r@ =~= regs);
        }
        do_wb && rn == 15
    }
}

/// Sign-extend the low byte of `v`.
pub open spec fn sext8(v: u32) -> u32 {
    if v & 0x80 != 0 {
        (v & 0xFF) | 0xFFFF_FF00
    } else {
        v & 0xFF
    }
}

/// Sign-extend the low halfword of `v`.
pub open spec fn sext16(v: u32) -> u32 {
    if v & 0x8000 != 0 {
        (v & 0xFFFF) | 0xFFFF_0000
    } else {
        v & 0xFFFF
    }
}

pub fn sign_extend8(v: u32) -> (r: u32)
    ensures
        r == sext8(v),
{
    if v & 0x80 != 0 {
        (v & 0xFF) | 0xFFFF_FF00
    } else {
        v & 0xFF
    }
}

pub fn sign_extend16(v: u32) -> (r: u32)
    ensures
        r == sext16(v),
{
    if v & 0x8000 != 0 {
        (v & 0xFFFF) | 0xFFFF_0000
    } else {
        v & 0xFFFF
    }
}

/// The value LDRH / LDRSB / LDRSH load from the raw bus value `raw`.
pub open spec fn halfword_load_value(sh: u32, addr: u32, raw: u32) -> u32 {
    if sh == 1 {
        ror32(raw, ((addr & 1) * 8) as u32)
    } else if sh == 2 {
        sext8(raw)
    } else if addr & 1 != 0 {
        sext8(raw >> 8)
    } else {
        sext16(raw)
    }
}

/// The effect of LDRH / STRH / LDRSB / LDRSH.
pub open spec fn halfword_transfer_effect(cpu: Arm7tdmi, op: u32, after: Arm7tdmi, ev0: Seq<BusEvent>, ev1: Seq<BusEvent>, branched: bool) -> bool {
    let pre = (op >> 24) & 1 == 1;
    let up = (op >> 23) & 1 == 1;
    let imm_offset = (op >> 22) & 1 == 1;
    let writeback = (op >> 21) & 1 == 1;
    let load = (op >> 20) & 1 == 1;
    let rn = ((op >> 16) & 0xF) as int;
    let rd = ((op >> 12) & 0xF) as int;
    let sh = (op >> 5) & 3;
    let offset = if imm_offset { (((op >> 8) & 0xF) << 4) | (op & 0xF) } else { cpu.r[(op & 0xF) as int] };
    let (addr, oa) = transfer_addr(cpu.r[rn], offset, pre, up);
    let do_wb = !pre || writeback;
    let wb_value = if rn == 15 { oa.wrapping_add(4) } else { oa };
    let regs = if do_wb { cpu.r@.update(rn, wb_value) } else { cpu.r@ };
    if load {
        let raw = event_value(ev1[ev0.len() as int]);
        let width = if sh == 2 { Width::Byte } else { Width::Half };
        &&& ev1 == ev0.push(read_event(width, addr, Access::NonSeq, raw))
        &&& branched == ((do_wb && rn == 15) || rd == 15)
        &&& cpu.with_regs(after, regs.update(rd, halfword_load_value(sh, addr, raw)))
    } else {
        let value = if rd == 15 { cpu.r[15].wrapping_add(4) } else { cpu.r[rd] };
        &&& ev1 == ev0.push(write_event(Width::Half, addr, Access::NonSeq, value & 0xFFFF))
        &&& branched == (do_wb && rn == 15)
        &&& cpu.with_regs(after, regs)
    }
}

/// LDRH / STRH / LDRSB / LDRSH with immediate or register offset.
fn halfword_signed_transfer<B: Bus>(cpu: &mut Arm7tdmi, bus: &mut B, op: u32) -> (branched: bool)
    ensures
        crate::bus::extends(old(bus).events(), final(bus).events()),
        halfword_transfer_effect(*old(cpu), op, *final(cpu), old(bus).events(), final(bus).events(), branched),
        final(bus).clock() >= old(bus).clock(),
        old(bus).inv() ==> final(bus).inv(),
        final(bus).setup() == old(bus).setup(),
{
    let pre = (op >> 24) & 1 == 1;
    let up = (op >> 23) & 1 == 1;
    let imm_offset = (op >> 22) & 1 == 1;
    let writeback = (op >> 21) & 1 == 1;
    let load = (op >> 20) & 1 == 1;
    let rn = reg_field(op, 16);
    let rd = reg_field(op, 12);
    let sh = (op >> 5) & 3;
    let offset = if imm_offset {
        (((op >> 8) & 0xF) << 4) | (op & 0xF)
    } else {
        let rm = reg_field(op, 0);
        assert(op >> 0u32 == op) by { crate::bits::lemma_u32_bits(op, 0); }
        cpu.r[rm]
    };
    let base = cpu.r[rn];
    let offset_addr = if up { base.wrapping_add(offset) } else { base.wrapping_sub(offset) };
    let addr = if pre { offset_addr } else { base };
    let do_wb = !pre || writeback;
    let wb_value = if rn == 15 { offset_addr.wrapping_add(4) } else { offset_addr };
    let ghost c0 = *cpu;
    if load {
        let value = if sh == 1 {
            let raw = bus.read16(addr, Access::NonSeq) as u32;
            barrel::rotate_right(raw, barrel::half_rotation(addr))
        } else if sh == 2 {
            sign_extend8(bus.read8(addr, Access::NonSeq) as u32)
        } else {
            let raw = bus.read16(addr, Access::NonSeq) as u32;
            if addr & 1 != 0 {
                sign_extend8(raw >> 8)
            } else {
                sign_extend16(raw)
            }
        };
        if do_wb {
            cpu.r[rn] = wb_value;
        }
        cpu.r[rd] = value;
        proof {
            let regs = if do_wb { c0.r@.update(rn as int, wb_value) } else { c0.r@ };
            assert(cpu.r@ =~= regs.update(rd as int, value));
        }
        (do_wb && rn == 15) || rd == 15
    } else {
        let value = if rd == 15 { cpu.r[15].wrapping_add(4) } else { cpu.r[rd] };
        proof { crate::bits::lemma_u32_bits(value, 0); }
        bus.write16(addr, (value & 0xFFFF) as u16, Access::NonSeq);
        if do_wb {
            cpu.r[rn] = wb_value;
        }
        proof {
            let regs = if do_wb { c0.r@.update(rn as int, wb_value) } else { c0.r@ };
            assert(cpu.r@ =~= regs);
        }
        do_wb && rn == 15
    }
}

/// Whether register `i` is in a transfer list.
pub open spec fn listed(list: u32, i: int) -> bool {
    (list >> (i as u32)) & 1 == 1
}

/// How many registers below `i` a transfer list names: the position of
/// register `i` in the transfer.
pub open spec fn rank(list: u32, i: int) -> int
    decreases i,
{
    if i <= 0 {
        0
    } else {
        rank(list, i - 1) + if listed(list, i - 1) { 1int } else { 0int }
    }
}

pub proof fn lemma_rank_bounds(list: u32, i: int)
    requires
        0 <= i,
    ensures
        0 <= rank(list, i) <= i,
    decreases i,
{
    if i > 0 {
        lemma_rank_bounds(list, i - 1);
    }
}

pub proof fn lemma_rank_monotone(list: u32, i: int, j: int)
    requires
        0 <= i <= j,
    ensures
        rank(list, i) <= rank(list, j),
        listed(list, i) && i < j ==> rank(list, i) < rank(list, j),
    decreases j - i,
{
    if i < j {
        lemma_rank_monotone(list, i, j - 1);
        if listed(list, i) && i < j - 1 {
        }
    }
}

/// The lowest address and the written-back base of an LDM / STM of `n`
/// registers.
pub open spec fn block_bounds(base: u32, n: u32, pre: bool, up: bool) -> (u32, u32) {
    if up {
        (if pre { base.wrapping_add(4) } else { base }, base.wrapping_add((4 * n) as u32))
    } else {
        let low = base.wrapping_sub((4 * n) as u32);
        (if pre { low } else { low.wrapping_add(4) }, low)
    }
}

/// The address of the `k`-th transfer of a block starting at `start`.
pub open spec fn slot(start: u32, k: int) -> u32 {
    start.wrapping_add((4 * k) as u32)
}

pub proof fn lemma_slot_next(start: u32, k: int)
    requires
        0 <= k < 16,
    ensures
        slot(start, k).wrapping_add(4) == slot(start, k + 1),
{
}

/// The reads of an LDM that loaded `vals`, in order.
pub open spec fn block_reads(start: u32, vals: Seq<u32>) -> Seq<BusEvent> {
    Seq::new(vals.len(), |k: int| read_event(Width::Word, slot(start, k), Access::NonSeq, vals[k]))
}

/// The writes of an STM that stored `vals`, in order.
pub open spec fn block_writes(start: u32, vals: Seq<u32>) -> Seq<BusEvent> {
    Seq::new(vals.len(), |k: int| write_event(Width::Word, slot(start, k), Access::NonSeq, vals[k]))
}

/// The value an LDM loaded into listed register `i`.
pub open spec fn loaded(ev0: Seq<BusEvent>, ev1: Seq<BusEvent>, list: u32, i: int) -> u32 {
    event_value(ev1[ev0.len() + rank(list, i)])
}

/// The effect of LDM / STM with a non-empty register list.
pub open spec fn block_transfer_effect(cpu: Arm7tdmi, op: u32, after: Arm7tdmi, ev0: Seq<BusEvent>, ev1: Seq<BusEvent>, branched: bool) -> bool {
    let pre = (op >> 24) & 1 == 1;
    let up = (op >> 23) & 1 == 1;
    let s = (op >> 22) & 1 == 1;
    let writeback = (op >> 21) & 1 == 1;
    let load = (op >> 20) & 1 == 1;
    let rn = ((op >> 16) & 0xF) as int;
    let list = op & 0xFFFF;
    let n = rank(list, 16);
    let (start, wb_value) = block_bounds(cpu.r[rn], n as u32, pre, up);
    let r15_in_list = listed(list, 15);
    let user_bank = s && !(load && r15_in_list);
    &&& ev1.len() == ev0.len() + n
    &&& if load {
        &&& forall|i: int|
            0 <= i < 16 && listed(list, i) ==> #[trigger] ev1[ev0.len() + rank(list, i)] == read_event(
                Width::Word,
                slot(start, rank(list, i)),
                Access::NonSeq,
                loaded(ev0, ev1, list, i),
            )
        &&& if user_bank {
            &&& branched == (writeback && !listed(list, rn) && rn == 15)
            &&& after.cpsr == cpu.cpsr
            &&& after.pipeline == cpu.pipeline
            &&& after.hle_bios == cpu.hle_bios
            &&& forall|m: u32| #[trigger] after.spsr_of(m) == cpu.spsr_of(m)
            &&& forall|m: u32, j: int|
                0 <= j < 16 ==> #[trigger] after.reg_in_mode(m, j) == if same_register(m, 0x10, j) && listed(
                    list,
                    j,
                ) {
                    loaded(ev0, ev1, list, j)
                } else if same_register(m, 0x10, j) && writeback && !listed(list, rn) && j == rn {
                    wb_value
                } else {
                    cpu.reg_in_mode(m, j)
                }
        } else {
            let regs = Seq::new(
                16,
                |j: int|
                    if listed(list, j) {
                        loaded(ev0, ev1, list, j)
                    } else if writeback && !listed(list, rn) && j == rn {
                        wb_value
                    } else {
                        cpu.r[j]
                    },
            );
            &&& branched == (r15_in_list || (writeback && !listed(list, rn) && rn == 15))
            &&& if s && r15_in_list && has_spsr_mode(cpu.cpsr) {
                &&& after.cpsr == cpu.spsr_of(cpu.cpsr) | 0x10
                &&& after.pipeline == cpu.pipeline
                &&& after.hle_bios == cpu.hle_bios
                &&& forall|m: u32| #[trigger] after.spsr_of(m) == cpu.spsr_of(m)
                &&& forall|m: u32, j: int|
                    0 <= j < 16 ==> #[trigger] after.reg_in_mode(m, j) == if same_register(m, cpu.cpsr, j) {
                        regs[j]
                    } else {
                        cpu.reg_in_mode(m, j)
                    }
            } else {
                cpu.with_regs(after, regs)
            }
        }
    } else {
        &&& forall|i: int|
            0 <= i < 16 && listed(list, i) ==> #[trigger] ev1[ev0.len() + rank(list, i)] == write_event(
                Width::Word,
                slot(start, rank(list, i)),
                Access::NonSeq,
                if i == rn && writeback && rank(list, i) != 0 {
                    wb_value
                } else if i == 15 {
                    cpu.r[15].wrapping_add(4)
                } else if user_bank {
                    cpu.reg_in_mode(0x10, i)
                } else {
                    cpu.r[i]
                },
            )
        &&& branched == (writeback && rn == 15)
        &&& if !writeback {
            after == cpu
        } else if user_bank {
            &&& after.cpsr == cpu.cpsr
            &&& after.pipeline == cpu.pipeline
            &&& after.hle_bios == cpu.hle_bios
            &&& forall|m: u32| #[trigger] after.spsr_of(m) == cpu.spsr_of(m)
            &&& forall|m: u32, j: int|
                0 <= j < 16 ==> #[trigger] after.reg_in_mode(m, j) == if same_register(m, 0x10, j) && j == rn {
                    wb_value
                } else {
                    cpu.reg_in_mode(m, j)
                }
        } else {
            cpu.with_regs(after, cpu.r@.update(rn, wb_value))
        }
    }
}

/// The effect of LDM / STM with an empty list: R15 alone is transferred, and
/// the base moves as if all sixteen registers were.
pub open spec fn empty_block_effect(cpu: Arm7tdmi, op: u32, after: Arm7tdmi, ev0: Seq<BusEvent>, ev1: Seq<BusEvent>, branched: bool) -> bool {
    let pre = (op >> 24) & 1 == 1;
    let up = (op >> 23) & 1 == 1;
    let writeback = (op >> 21) & 1 == 1;
    let load = (op >> 20) & 1 == 1;
    let rn = ((op >> 16) & 0xF) as int;
    let (start, wb_value) = block_bounds(cpu.r[rn], 16, pre, up);
    if load {
        let raw = event_value(ev1[ev0.len() as int]);
        let regs = cpu.r@.update(15, raw);
        &&& ev1 == ev0.push(read_event(Width::Word, start, Access::NonSeq, raw))
        &&& branched
        &&& cpu.with_regs(after, if writeback { regs.update(rn, wb_value) } else { regs })
    } else {
        &&& ev1 == ev0.push(write_event(Width::Word, start, Access::NonSeq, cpu.r[15].wrapping_add(4)))
        &&& branched == (rn == 15)
        &&& cpu.with_regs(after, if writeback { cpu.r@.update(rn, wb_value) } else { cpu.r@ })
    }
}

/// Count the registers named in a 16-bit transfer list.
fn list_count(list: u32) -> (n: u32)
    requires
        list <= 0xFFFF,
    ensures
        n as int == rank(list, 16),
        n <= 16,
{
    let mut n: u32 = 0;
    let mut i: u32 = 0;
    while i < 16
        invariant
            i <= 16,
            n as int == rank(list, i as int),
            n <= i,
        decreases 16 - i,
    {
        if (list >> i) & 1 == 1 {
            n = n + 1;
        }
        i = i + 1;
    }
    n
}

/// LDM / STM: block transfer of a register list, always visiting registers
/// low-to-high at ascending addresses.
pub(crate) fn block_data_transfer<B: Bus>(cpu: &mut Arm7tdmi, bus: &mut B, op: u32) -> (branched: bool)
    ensures
        crate::bus::extends(old(bus).events(), final(bus).events()),
        if op & 0xFFFF == 0 {
            empty_block_effect(*old(cpu), op, *final(cpu), old(bus).events(), final(bus).events(), branched)
        } else {
            block_transfer_effect(*old(cpu), op, *final(cpu), old(bus).events(), final(bus).events(), branched)
        },
        final(bus).clock() >= old(bus).clock(),
        old(bus).inv() ==> final(bus).inv(),
        final(bus).setup() == old(bus).setup(),
{
    let pre = (op >> 24) & 1 == 1;
    let up = (op >> 23) & 1 == 1;
    let s = (op >> 22) & 1 == 1;
    let writeback = (op >> 21) & 1 == 1;
    let load = (op >> 20) & 1 == 1;
    let rn = reg_field(op, 16);
    let list = op & 0xFFFF;
    let base = cpu.r[rn];
    let ghost c0 = *cpu;
    let ghost ev0 = bus.events();
    if list == 0 {
        let (start, wb_value) = if up {
            (if pre { base.wrapping_add(4) } else { base }, base.wrapping_add(0x40))
        } else {
            let low = base.wrapping_sub(0x40);
            (if pre { low } else { low.wrapping_add(4) }, low)
        };
        if load {
            cpu.r[15] = bus.read32(start, Access::NonSeq);
            if writeback {
                cpu.r[rn] = wb_value;
            }
            proof {
                let regs = c0.r@.update(15, event_value(bus.events()[ev0.len() as int]));
                assert(cpu.r@ =~= if writeback { regs.update(rn as int, wb_value) } else { regs });
            }
            return true;
        }
        bus.write32(start, cpu.r[15].wrapping_add(4), Access::NonSeq);
        if writeback {
            cpu.r[rn] = wb_value;
        }
        assert(cpu.r@ =~= if writeback { c0.r@.update(rn as int, wb_value) } else { c0.r@ });
        return rn == 15;
    }
    assert(list <= 0xFFFF) by {
        crate::bits::lemma_u32_bits(op, 0xFFFF);
    }
    let n = list_count(list);
    let (start, wb_value) = if up {
        (if pre { base.wrapping_add(4) } else { base }, base.wrapping_add(4 * n))
    } else {
        let low = base.wrapping_sub(4 * n);
        (if pre { low } else { low.wrapping_add(4) }, low)
    };
    let r15_in_list = (list >> 15) & 1 == 1;
    let user_bank = s && !(load && r15_in_list);
    let rn_listed = (list >> (rn as u32)) & 1 == 1;
    let mut addr = start;
    let mut wrote_pc = false;
    if load {
        let ghost mut vals: Seq<u32> = Seq::empty();
        let mut i: usize = 0;
        while i < 16
            invariant
                0 <= i <= 16,
                rn < 16,
                list == op & 0xFFFF,
                user_bank == (s && !(load && r15_in_list)),
                load,
                r15_in_list == listed(list, 15),
                vals.len() == rank(list, i as int),
                addr == slot(start, rank(list, i as int)),
                bus.events() == ev0 + block_reads(start, vals),
                bus.clock() >= old(bus).clock(),
                old(bus).inv() ==> bus.inv(),
                bus.setup() == old(bus).setup(),
                ev0 == old(bus).events(),
                wrote_pc == (!user_bank && i > 15 && r15_in_list),
                cpu.cpsr == c0.cpsr,
                cpu.pipeline == c0.pipeline,
                cpu.hle_bios == c0.hle_bios,
                user_bank ==> forall|m: u32| #[trigger] cpu.spsr_of(m) == c0.spsr_of(m),
                user_bank ==> forall|m: u32, j: int|
                    0 <= j < 16 ==> #[trigger] cpu.reg_in_mode(m, j) == if same_register(m, 0x10, j) && j < i && listed(
                        list,
                        j,
                    ) {
                        vals[rank(list, j)]
                    } else {
                        c0.reg_in_mode(m, j)
                    },
                !user_bank ==> cpu.r8_12 == c0.r8_12 && cpu.r13_14 == c0.r13_14 && cpu.spsr_bank == c0.spsr_bank,
                !user_bank ==> forall|j: int|
                    0 <= j < 16 ==> #[trigger] cpu.r[j] == if j < i && listed(list, j) {
                        vals[rank(list, j)]
                    } else {
                        c0.r[j]
                    },
            decreases 16 - i,
        {
            assert(rank(list, i as int + 1) == rank(list, i as int) + if listed(list, i as int) { 1int } else { 0int });
            proof {
                lemma_rank_bounds(list, i as int);
                lemma_rank_monotone(list, i as int, 16);
                lemma_rank_bounds(list, 16);
                assert forall|j: int| 0 <= j < i && listed(list, j) implies rank(list, j) < rank(list, i as int) by {
                    lemma_rank_monotone(list, j, i as int);
                }
            }
            if (list >> (i as u32)) & 1 == 1 {
                let ghost evb = bus.events();
                let ghost prev = vals;
                let ghost before = *cpu;
                let value = bus.read32(addr, Access::NonSeq);
                proof {
                    lemma_slot_next(start, rank(list, i as int));
                    vals = vals.push(value);
                    assert(bus.events() =~= ev0 + block_reads(start, vals));
                }
                addr = addr.wrapping_add(4);
                if user_bank {
                    cpu.set_user_reg(i, value);
                } else if i == 15 {
                    cpu.r[15] = value;
                    wrote_pc = true;
                } else {
                    cpu.r[i] = value;
                }
                proof {
                    if user_bank {
                        assert forall|m: u32, j: int| 0 <= j < 16 implies #[trigger] cpu.reg_in_mode(m, j) == if same_register(m, 0x10, j) && j < i + 1 && listed(list, j) {
                            vals[rank(list, j)]
                        } else {
                            c0.reg_in_mode(m, j)
                        } by {
                            if j < i && listed(list, j) {
                                lemma_rank_bounds(list, j);
                                assert(rank(list, j) < rank(list, i as int));
                                assert(vals[rank(list, j)] == prev[rank(list, j)]);
                            }
                            if same_register(m, 0x10, j) && j == i {
                                assert(vals[rank(list, j)] == value);
                            }
                        }
                    } else {
                        assert forall|j: int| 0 <= j < 16 implies #[trigger] cpu.r[j] == if j < i + 1 && listed(list, j) {
                            vals[rank(list, j)]
                        } else {
                            c0.r[j]
                        } by {
                            if j < i && listed(list, j) {
                                lemma_rank_bounds(list, j);
                                assert(rank(list, j) < rank(list, i as int));
                                assert(vals[rank(list, j)] == prev[rank(list, j)]);
                                assert(cpu.r[j] == before.r[j]);
                            } else if j == i {
                                assert(vals[rank(list, j)] == value);
                            } else {
                                assert(cpu.r[j] == before.r[j]);
                            }
                        }
                    }
                }
            }
            i = i + 1;
        }
        let ghost mid_ev = bus.events();
        assert(user_bank ==> forall|m: u32| #[trigger] cpu.spsr_of(m) == c0.spsr_of(m));
        proof {
            lemma_rank_monotone(list, rn as int, 16);
            assert forall|j: int| 0 <= j < 16 && listed(list, j) implies #[trigger] loaded(ev0, mid_ev, list, j)
                == vals[rank(list, j)] by {
                lemma_rank_bounds(list, j);
                lemma_rank_monotone(list, j, 16);
            }
        }
        let ghost after_loop = *cpu;
        if writeback && !rn_listed {
            if user_bank && rn != 15 {
                cpu.set_user_reg(rn, wb_value);
            } else {
                cpu.r[rn] = wb_value;
                wrote_pc = wrote_pc || rn == 15;
            }
        }
        proof {
            assert(cpu.spsr_bank == after_loop.spsr_bank);
            assert forall|m: u32| #[trigger] cpu.spsr_of(m) == after_loop.spsr_of(m) by {
            }
            if !user_bank {
                let regs = Seq::new(
                    16,
                    |j: int|
                        if listed(list, j) {
                            loaded(ev0, mid_ev, list, j)
                        } else if writeback && !listed(list, rn as int) && j == rn {
                            wb_value
                        } else {
                            c0.r[j]
                        },
                );
                assert(cpu.r@ =~= regs);
            }
        }
        let ghost mid = *cpu;
        assert(user_bank ==> forall|m: u32| #[trigger] cpu.spsr_of(m) == c0.spsr_of(m));
        if s && r15_in_list && cpu.has_spsr() {
            let spsr = cpu.current_spsr();
            cpu.write_cpsr(spsr);
            assert forall|m: u32, j: int| 0 <= j < 16 implies #[trigger] cpu.reg_in_mode(m, j) == if same_register(m, c0.cpsr, j) {
                mid.r[j]
            } else {
                c0.reg_in_mode(m, j)
            } by {
                assert(cpu.reg_in_mode(m, j) == mid.reg_in_mode(m, j));
            }
        }
        proof {
            assert forall|i: int| 0 <= i < 16 && listed(list, i) implies #[trigger] bus.events()[ev0.len() + rank(list, i)]
                == read_event(Width::Word, slot(start, rank(list, i)), Access::NonSeq, loaded(ev0, bus.events(), list, i)) by {
                lemma_rank_bounds(list, i);
                lemma_rank_monotone(list, i, 16);
            }
            assert(bus.events().len() == ev0.len() + rank(list, 16));
            if user_bank {
                assert(wrote_pc == (writeback && !listed(list, rn as int) && rn == 15));
                assert forall|m: u32, j: int| 0 <= j < 16 implies #[trigger] cpu.reg_in_mode(m, j) == if same_register(m, 0x10, j) && listed(list, j) {
                    loaded(ev0, bus.events(), list, j)
                } else if same_register(m, 0x10, j) && writeback && !listed(list, rn as int) && j == rn {
                    wb_value
                } else {
                    c0.reg_in_mode(m, j)
                } by {
                    assert(after_loop.reg_in_mode(m, j) == if same_register(m, 0x10, j) && listed(list, j) {
                        vals[rank(list, j)]
                    } else {
                        c0.reg_in_mode(m, j)
                    });
                }
            } else {
                assert(wrote_pc == (r15_in_list || (writeback && !listed(list, rn as int) && rn == 15)));
            }
            assert(block_transfer_effect(c0, op, *cpu, ev0, bus.events(), wrote_pc));
        }
    } else {
        let ghost mut svals: Seq<u32> = Seq::empty();
        let mut first = true;
        let mut i: usize = 0;
        while i < 16
            invariant
                0 <= i <= 16,
                rn < 16,
                list == op & 0xFFFF,
                !load,
                user_bank == s,
                *cpu == c0,
                first == (rank(list, i as int) == 0),
                svals.len() == rank(list, i as int),
                addr == slot(start, rank(list, i as int)),
                bus.events() == ev0 + block_writes(start, svals),
                bus.clock() >= old(bus).clock(),
                old(bus).inv() ==> bus.inv(),
                bus.setup() == old(bus).setup(),
                ev0 == old(bus).events(),
                forall|j: int|
                    0 <= j < i && listed(list, j) ==> #[trigger] svals[rank(list, j)] == if j == rn && writeback && rank(list, j) != 0 {
                        wb_value
                    } else if j == 15 {
                        c0.r[15].wrapping_add(4)
                    } else if user_bank {
                        c0.reg_in_mode(0x10, j)
                    } else {
                        c0.r[j]
                    },
            decreases 16 - i,
        {
            assert(rank(list, i as int + 1) == rank(list, i as int) + if listed(list, i as int) { 1int } else { 0int });
            proof {
                lemma_rank_bounds(list, i as int);
                lemma_rank_monotone(list, i as int, 16);
                lemma_rank_bounds(list, 16);
                assert forall|j: int| 0 <= j < i && listed(list, j) implies rank(list, j) < rank(list, i as int) by {
                    lemma_rank_monotone(list, j, i as int);
                }
            }
            if (list >> (i as u32)) & 1 == 1 {
                let value = if i == rn && writeback && !first {
                    wb_value
                } else if i == 15 {
                    cpu.r[15].wrapping_add(4)
                } else if user_bank {
                    cpu.user_reg(i)
                } else {
                    cpu.r[i]
                };
                bus.write32(addr, value, Access::NonSeq);
                proof {
                    lemma_slot_next(start, rank(list, i as int));
                    let ghost prev = svals;
                    svals = svals.push(value);
                    assert(bus.events() =~= ev0 + block_writes(start, svals));
                    assert forall|j: int| 0 <= j < i + 1 && listed(list, j) implies #[trigger] svals[rank(list, j)] == if j == rn && writeback && rank(list, j) != 0 {
                        wb_value
                    } else if j == 15 {
                        c0.r[15].wrapping_add(4)
                    } else if user_bank {
                        c0.reg_in_mode(0x10, j)
                    } else {
                        c0.r[j]
                    } by {
                        if j < i {
                            lemma_rank_bounds(list, j);
                            assert(rank(list, j) < rank(list, i as int));
                            assert(svals[rank(list, j)] == prev[rank(list, j)]);
                        }
                    }
                }
                addr = addr.wrapping_add(4);
                first = false;
            }
            i = i + 1;
        }
        proof {
            assert forall|j: int| 0 <= j < 16 && listed(list, j) implies rank(list, j) < svals.len() by {
                lemma_rank_bounds(list, j);
                lemma_rank_monotone(list, j, 16);
            }
        }
        if writeback {
            if user_bank && rn != 15 {
                cpu.set_user_reg(rn, wb_value);
            } else {
                cpu.r[rn] = wb_value;
                wrote_pc = wrote_pc || rn == 15;
                assert(cpu.r@ =~= c0.r@.update(rn as int, wb_value));
            }
        }
        proof {
            assert forall|i: int| 0 <= i < 16 && listed(list, i) implies #[trigger] bus.events()[ev0.len() + rank(list, i)]
                == write_event(
                Width::Word,
                slot(start, rank(list, i)),
                Access::NonSeq,
                if i == rn && writeback && rank(list, i) != 0 {
                    wb_value
                } else if i == 15 {
                    c0.r[15].wrapping_add(4)
                } else if user_bank {
                    c0.reg_in_mode(0x10, i)
                } else {
                    c0.r[i]
                },
            ) by {
                lemma_rank_bounds(list, i);
                lemma_rank_monotone(list, i, 16);
            }
        }
    }
    wrote_pc
}


/// The BIOS call number in a SWI's comment field.
pub open spec fn swi_number(op: u32) -> u8 {
    ((op >> 16) & 0xFF) as u8
}

/// SWI: with the BIOS emulated at a high level, the call's own effect; else
/// the Supervisor exception is entered (return address in LR_svc, the old
/// CPSR in SPSR_svc) after the Div repair, unless that repair answered the
/// call itself.
pub open spec fn software_interrupt_effect(
    cpu: Arm7tdmi,
    op: u32,
    after: Arm7tdmi,
    ev0: Seq<BusEvent>,
    ev1: Seq<BusEvent>,
    branched: bool,
) -> bool {
    let num = swi_number(op);
    if cpu.hle_bios {
        &&& branched == (num == 0)
        &&& swi_cpu_effect(num, cpu, after)
        &&& swi_bus_effect(num, cpu, ev0, ev1)
    } else {
        &&& ev1 == ev0
        &&& if (num == 6 || num == 7) && div_operands(cpu, num) == (0int, 0int) {
            &&& !branched
            &&& div_applied(cpu, after, 0, 0)
        } else {
            &&& branched
            &&& div_patched(cpu, num).entered_exception(after, 0x13, cpu.r[15].wrapping_sub(4), 0x08)
        }
    }
}

/// Div (SWI 06h) with a real BIOS: 0/0 is answered without entering the
/// BIOS (r0 = 1, r1 = 0, r3 = 1, the CPSR unchanged); any other operands
/// enter the Supervisor exception at vector 8, the return address in r14,
/// r0 and r1 left for the BIOS, and r3 seeded with |r0 / r1| when r1 is not
/// zero. The call makes no bus request.
pub proof fn lemma_div_call(
    cpu: Arm7tdmi,
    op: u32,
    after: Arm7tdmi,
    ev0: Seq<BusEvent>,
    ev1: Seq<BusEvent>,
    branched: bool,
)
    requires
        !cpu.hle_bios,
        swi_number(op) == 6,
        software_interrupt_effect(cpu, op, after, ev0, ev1, branched),
    ensures
        ev1 == ev0,
        (cpu.r[0] as i32 == 0 && cpu.r[1] as i32 == 0) ==> {
            &&& !branched
            &&& after.r[0] == 1 && after.r[1] == 0 && after.r[3] == 1
            &&& after.cpsr == cpu.cpsr
        },
        !(cpu.r[0] as i32 == 0 && cpu.r[1] as i32 == 0) ==> {
            &&& branched
            &&& after.cpsr == super::exception_cpsr(cpu.cpsr, 0x13)
            &&& after.r[15] == 8
            &&& after.r[14] == cpu.r[15].wrapping_sub(4)
            &&& after.r[0] == cpu.r[0] && after.r[1] == cpu.r[1]
            &&& cpu.r[1] as i32 != 0 ==> after.r[3] == (super::hle::abs(cpu.r[0] as i32 as int) / super::hle::abs(
                cpu.r[1] as i32 as int,
            )) as u32
        },
{
    if !(cpu.r[0] as i32 == 0 && cpu.r[1] as i32 == 0) {
        let p = div_patched(cpu, 6);
        let m = after.cpsr;
        assert(after.reg_in_mode(m, 0) == p.reg_in_mode(m, 0));
        assert(after.reg_in_mode(m, 1) == p.reg_in_mode(m, 1));
        assert(after.reg_in_mode(m, 3) == p.reg_in_mode(m, 3));
        after.lemma_active_view(0);
        after.lemma_active_view(1);
        after.lemma_active_view(3);
    }
}

/// SWI: a BIOS call.
fn software_interrupt<B: Bus>(cpu: &mut Arm7tdmi, bus: &mut B, op: u32) -> (branched: bool)
    ensures
        crate::bus::extends(old(bus).events(), final(bus).events()),
        software_interrupt_effect(*old(cpu), op, *final(cpu), old(bus).events(), final(bus).events(), branched),
        final(cpu).pipeline == old(cpu).pipeline,
        final(bus).clock() >= old(bus).clock(),
        old(bus).inv() ==> final(bus).inv(),
        final(bus).setup() == old(bus).setup(),
{
    let num = ((op >> 16) & 0xFF) as u8;
    if cpu.hle_bios {
        return super::hle::swi(cpu, bus, num);
    }
    let return_addr = cpu.r[15].wrapping_sub(4);
    if super::hle::patch_div(cpu, num) {
        return false;
    }
    proof {
        let (n, d) = div_operands(*old(cpu), num);
        if (num == 6 || num == 7) && d != 0 {
            assert(cpu.r =~= div_patched(*old(cpu), num).r);
        }
    }
    assert(*cpu == div_patched(*old(cpu), num));
    cpu.enter_exception(0x13, return_addr, 0x08);
    true
}

/// The instruction formats of the ARM state, as the decoder tells them apart.
pub ghost enum ArmFormat {
    BranchExchange,
    Multiply,
    MultiplyLong,
    Swap,
    HalfwordTransfer,
    PsrTransfer,
    DataProcessing,
    SingleTransfer,
    Branch,
    BlockTransfer,
    SoftwareInterrupt,
    Unhandled,
}

/// Which format an ARM instruction word decodes as.
pub open spec fn arm_format(op: u32) -> ArmFormat {
    let class = (op >> 26) & 3;
    let reg_space = (op >> 25) & 1 == 0;
    if class == 0 {
        if op & 0x0FFF_FFF0 == 0x012F_FF10 {
            ArmFormat::BranchExchange
        } else if reg_space && (op >> 4) & 0xF == 0x9 && (op >> 22) & 0x3F == 0 {
            ArmFormat::Multiply
        } else if reg_space && (op >> 4) & 0xF == 0x9 && (op >> 23) & 0x1F == 1 {
            ArmFormat::MultiplyLong
        } else if reg_space && (op >> 4) & 0xF == 0x9 && (op >> 23) & 0x1F == 2 {
            ArmFormat::Swap
        } else if reg_space && (op >> 4) & 0xF != 0x9 && (op >> 4) & 0x9 == 0x9 {
            ArmFormat::HalfwordTransfer
        } else if 0x8 <= (op >> 21) & 0xF <= 0xB && (op >> 20) & 1 == 0 {
            ArmFormat::PsrTransfer
        } else {
            ArmFormat::DataProcessing
        }
    } else if class == 1 {
        ArmFormat::SingleTransfer
    } else if class == 2 {
        if (op >> 25) & 1 == 1 {
            ArmFormat::Branch
        } else {
            ArmFormat::BlockTransfer
        }
    } else if (op >> 24) & 0xF == 0xF {
        ArmFormat::SoftwareInterrupt
    } else {
        ArmFormat::Unhandled
    }
}

/// The effect of executing an ARM instruction whose condition passed.
pub open spec fn execute_effect(
    cpu: Arm7tdmi,
    op: u32,
    after: Arm7tdmi,
    ev0: Seq<BusEvent>,
    ev1: Seq<BusEvent>,
    branched: bool,
) -> bool {
    match arm_format(op) {
        ArmFormat::BranchExchange => branched && branch_exchange_effect(cpu, op, after) && ev1 == ev0,
        ArmFormat::Multiply => multiply_effect(cpu, op, after, ev0, ev1, branched),
        ArmFormat::MultiplyLong => multiply_long_effect(cpu, op, after, ev0, ev1, branched),
        ArmFormat::Swap => swap_effect(cpu, op, after, ev0, ev1, branched),
        ArmFormat::HalfwordTransfer => halfword_transfer_effect(cpu, op, after, ev0, ev1, branched),
        ArmFormat::PsrTransfer => !branched && psr_transfer_effect(cpu, op, after) && ev1 == ev0,
        ArmFormat::DataProcessing => data_processing_effect(cpu, op, after, branched) && ev1 == ev0,
        ArmFormat::SingleTransfer => single_transfer_effect(cpu, op, after, ev0, ev1, branched),
        ArmFormat::Branch => branched && branch_effect(cpu, op, after) && ev1 == ev0,
        ArmFormat::BlockTransfer => if op & 0xFFFF == 0 {
            empty_block_effect(cpu, op, after, ev0, ev1, branched)
        } else {
            block_transfer_effect(cpu, op, after, ev0, ev1, branched)
        },
        ArmFormat::SoftwareInterrupt => software_interrupt_effect(cpu, op, after, ev0, ev1, branched),
        ArmFormat::Unhandled => !branched && after == cpu && ev1 == ev0,
    }
}

/// `execute` on the instruction `SWI 06h` (Div) with a real BIOS: 0/0 is
/// answered without entering the BIOS (r0 = 1, r1 = 0, r3 = 1, the CPSR
/// unchanged); any other operands enter the Supervisor exception at vector 8,
/// the return address in r14, r0 and r1 left for the BIOS, and r3 seeded with
/// |r0 / r1| when r1 is not zero. The call makes no bus request.
pub proof fn lemma_execute_div(cpu: Arm7tdmi, after: Arm7tdmi, ev0: Seq<BusEvent>, ev1: Seq<BusEvent>, branched: bool)
    requires
        !cpu.hle_bios,
        execute_effect(cpu, 0xEF06_0000, after, ev0, ev1, branched),
    ensures
        ev1 == ev0,
        (cpu.r[0] as i32 == 0 && cpu.r[1] as i32 == 0) ==> {
            &&& !branched
            &&& after.r[0] == 1 && after.r[1] == 0 && after.r[3] == 1
            &&& after.cpsr == cpu.cpsr
        },
        !(cpu.r[0] as i32 == 0 && cpu.r[1] as i32 == 0) ==> {
            &&& branched
            &&& after.cpsr == super::exception_cpsr(cpu.cpsr, 0x13)
            &&& after.r[15] == 8
            &&& after.r[14] == cpu.r[15].wrapping_sub(4)
            &&& after.r[0] == cpu.r[0] && after.r[1] == cpu.r[1]
            &&& cpu.r[1] as i32 != 0 ==> after.r[3] == (super::hle::abs(cpu.r[0] as i32 as int) / super::hle::abs(
                cpu.r[1] as i32 as int,
            )) as u32
        },
{
    let op: u32 = 0xEF06_0000;
    assert((op >> 26) & 3 == 3 && (op >> 24) & 0xF == 0xF && ((op >> 16) & 0xFF) as u8 == 6) by (bit_vector)
        requires
            op == 0xEF06_0000u32,
    ;
    lemma_div_call(cpu, op, after, ev0, ev1, branched);
}

/// Execute one fetched ARM instruction whose condition has passed. Returns
/// `true` when it wrote R15 (a branch), so the pipeline must be refilled.
pub fn execute<B: Bus>(cpu: &mut Arm7tdmi, bus: &mut B, op: u32) -> (branched: bool)
    ensures
        crate::bus::extends(old(bus).events(), final(bus).events()),
        execute_effect(*old(cpu), op, *final(cpu), old(bus).events(), final(bus).events(), branched),
        final(cpu).pipeline == old(cpu).pipeline,
        final(bus).clock() >= old(bus).clock(),
        old(bus).inv() ==> final(bus).inv(),
        final(bus).setup() == old(bus).setup(),
{
    let class = (op >> 26) & 3;
    if class == 0 {
        if op & 0x0FFF_FFF0 == 0x012F_FF10 {
            return branch_exchange(cpu, op);
        }
        if (op >> 25) & 1 == 0 {
            if (op >> 4) & 0xF == 0x9 {
                if (op >> 22) & 0x3F == 0 {
                    return multiply(cpu, bus, op);
                }
                if (op >> 23) & 0x1F == 1 {
                    return multiply_long(cpu, bus, op);
                }
                if (op >> 23) & 0x1F == 2 {
                    return swap(cpu, bus, op);
                }
            } else if (op >> 4) & 0x9 == 0x9 {
                return halfword_signed_transfer(cpu, bus, op);
            }
        }
        let opcode4 = (op >> 21) & 0xF;
        if 0x8 <= opcode4 && opcode4 <= 0xB && (op >> 20) & 1 == 0 {
            return psr_transfer(cpu, op);
        }
        data_processing(cpu, op)
    } else if class == 1 {
        single_data_transfer(cpu, bus, op)
    } else if class == 2 {
        if (op >> 25) & 1 == 1 {
            branch(cpu, op)
        } else {
            block_data_transfer(cpu, bus, op)
        }
    } else if (op >> 24) & 0xF == 0xF {
        software_interrupt(cpu, bus, op)
    } else {
        false
    }
}

} // verus!
