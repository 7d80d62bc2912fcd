//! High-level emulation of the GBA BIOS SWI functions, used when no BIOS image
//! is present. Only the documented outputs of each call are produced.

use vstd::prelude::*;
use vstd::arithmetic::div_mod::lemma_fundamental_div_mod;
use super::Arm7tdmi;
use crate::bus::{Access, Bus, BusEvent, Width, write_event, read_event};

verus! {

broadcast use crate::bus::group_extends;

/// The 32-bit two's-complement pattern of an integer in (-2^32, 2^32).
pub open spec fn to_word(x: int) -> u32 {
    if x < 0 {
        (x + 0x1_0000_0000) as u32
    } else {
        x as u32
    }
}

pub open spec fn abs(x: int) -> int {
    if x < 0 {
        -x
    } else {
        x
    }
}

/// Division rounding toward zero.
pub open spec fn trunc_quot(n: int, d: int) -> int {
    if (n < 0) == (d < 0) {
        abs(n) / abs(d)
    } else {
        -(abs(n) / abs(d))
    }
}

/// What BIOS Div leaves in (r0, r1, r3) for `number / denom`, or `None` when
/// the call leaves the registers alone (a non-zero number over zero, on which
/// the hardware hangs).
pub open spec fn div_outcome(number: int, denom: int) -> Option<(u32, u32, u32)> {
    if denom == 0 {
        if number == 0 {
            Some((1, 0, 1))
        } else {
            None
        }
    } else {
        let q = trunc_quot(number, denom);
        Some((to_word(q), to_word(number - denom * q), (abs(number) / abs(denom)) as u32))
    }
}

/// Apply a Div outcome to the registers.
pub open spec fn div_applied(cpu: Arm7tdmi, after: Arm7tdmi, number: int, denom: int) -> bool {
    match div_outcome(number, denom) {
        Some((q, r, a)) => cpu.with_regs(after, cpu.r@.update(0, q).update(1, r).update(3, a)),
        None => after == cpu,
    }
}

/// The magnitude of a 32-bit signed value.
fn magnitude(v: i32) -> (m: u32)
    ensures
        m as int == abs(v as int),
{
    if v < 0 {
        (0 - (v as i64)) as u32
    } else {
        v as u32
    }
}

/// SWI 06h/07h Div: signed division. r0 = quotient, r1 = remainder,
/// r3 = |quotient|. 0/0 answers 1, 0, 1 (as the console's BIOS does); a
/// non-zero number over zero leaves the registers alone.
fn div(cpu: &mut Arm7tdmi, number: i32, denom: i32)
    ensures
        div_applied(*old(cpu), *final(cpu), number as int, denom as int),
{
    if denom == 0 {
        if number == 0 {
            cpu.r[0] = 1;
            cpu.r[1] = 0;
            cpu.r[3] = 1;
            assert(cpu.r@ =~= old(cpu).r@.update(0, 1).update(1, 0).update(3, 1));
        }
        return;
    }
    let un = magnitude(number);
    let ud = magnitude(denom);
    let uq = un / ud;
    let ur = un % ud;
    proof {
        lemma_fundamental_div_mod(un as int, ud as int);
        assert(ur < ud);
    }
    let q_neg = (number < 0) != (denom < 0);
    let q = if q_neg { 0u32.wrapping_sub(uq) } else { uq };
    let r = if number < 0 { 0u32.wrapping_sub(ur) } else { ur };
    cpu.r[0] = q;
    cpu.r[1] = r;
    cpu.r[3] = uq;
    proof {
        let n = number as int;
        let d = denom as int;
        let tq = trunc_quot(n, d);
        assert(abs(n) == abs(d) * (uq as int) + ur as int);
        assert(q == to_word(tq));
        if n < 0 {
            if d < 0 {
                assert(n - d * tq == -(abs(n) - abs(d) * tq)) by (nonlinear_arith)
                    requires
                        n < 0,
                        d < 0,
                        abs(n) == -n,
                        abs(d) == -d,
                ;
            } else {
                assert(n - d * tq == -(abs(n) - abs(d) * (uq as int))) by (nonlinear_arith)
                    requires
                        n < 0,
                        d > 0,
                        abs(n) == -n,
                        abs(d) == d,
                        tq == -(uq as int),
                ;
            }
            assert(r == to_word(n - d * tq));
        } else {
            if d < 0 {
                assert(n - d * tq == abs(n) - abs(d) * (uq as int)) by (nonlinear_arith)
                    requires
                        n >= 0,
                        d < 0,
                        abs(n) == n,
                        abs(d) == -d,
                        tq == -(uq as int),
                ;
            } else {
                assert(n - d * tq == abs(n) - abs(d) * (uq as int)) by (nonlinear_arith)
                    requires
                        n >= 0,
                        d > 0,
                        abs(n) == n,
                        abs(d) == d,
                        tq == uq as int,
                ;
            }
            assert(r == to_word(n - d * tq));
        }
        assert(cpu.r@ =~= old(cpu).r@.update(0, q).update(1, r).update(3, uq));
    }
}

/// The operands of Div (06h) and DivArm (07h, arguments swapped).
pub open spec fn div_operands(cpu: Arm7tdmi, num: u8) -> (int, int) {
    if num == 6 {
        ((cpu.r[0] as i32) as int, (cpu.r[1] as i32) as int)
    } else {
        ((cpu.r[1] as i32) as int, (cpu.r[0] as i32) as int)
    }
}

/// The CPU that enters a real BIOS's Div after [`patch_div`]: r3 already
/// holds |quotient| when the divisor is non-zero.
pub open spec fn div_patched(cpu: Arm7tdmi, num: u8) -> Arm7tdmi {
    let (n, d) = div_operands(cpu, num);
    if (num == 6 || num == 7) && d != 0 {
        Arm7tdmi { r: vstd::array::spec_array_update(cpu.r, 3, (abs(n) / abs(d)) as u32), ..cpu }
    } else {
        cpu
    }
}

/// Repair a real BIOS's Div around the call: 0/0 is answered here (the call
/// then does not enter the BIOS, `true`), and for a non-zero divisor r3 is
/// seeded with |quotient| while the division itself is left to the BIOS.
pub fn patch_div(cpu: &mut Arm7tdmi, num: u8) -> (answered: bool)
    ensures
        if num == 6 || num == 7 {
            let (n, d) = div_operands(*old(cpu), num);
            if d == 0 {
                &&& answered == (n == 0)
                &&& div_applied(*old(cpu), *final(cpu), n, d)
            } else {
                &&& !answered
                &&& old(cpu).with_regs(*final(cpu), old(cpu).r@.update(3, (abs(n) / abs(d)) as u32))
            }
        } else {
            !answered && *final(cpu) == *old(cpu)
        },
{
    if num != 6 && num != 7 {
        return false;
    }
    let (number, denom) = if num == 6 {
        (cpu.r[0] as i32, cpu.r[1] as i32)
    } else {
        (cpu.r[1] as i32, cpu.r[0] as i32)
    };
    if denom == 0 {
        div(cpu, number, denom);
        return number == 0;
    }
    let q = magnitude(number) / magnitude(denom);
    cpu.r[3] = q;
    assert(cpu.r@ =~= old(cpu).r@.update(3, q));
    false
}

/// Integer square root: the largest `x` with `x * x <= v`.
fn isqrt(v: u32) -> (x: u32)
    ensures
        (x as int) * (x as int) <= v,
        v < (x as int + 1) * (x as int + 1),
{
    let mut lo: u64 = 0;
    let mut hi: u64 = 0x1_0000;
    assert(hi * hi > v as u64) by (nonlinear_arith)
        requires
            hi == 0x1_0000,
    ;
    while hi - lo > 1
        invariant
            lo < hi <= 0x1_0000,
            lo * lo <= v as u64,
            (v as u64) < hi * hi,
        decreases hi - lo,
    {
        let mid = lo + (hi - lo) / 2;
        assert(mid * mid <= 0x1_0000_0000) by (nonlinear_arith)
            requires
                mid <= 0x1_0000,
        ;
        if mid * mid <= v as u64 {
            lo = mid;
        } else {
            hi = mid;
        }
    }
    assert(hi == lo + 1);
    lo as u32
}

/// The BIOS ArcTan polynomial (GBATEK), on a signed 1.14 fixed-point input.
pub open spec fn arctan_spec(x: i32) -> u16 {
    let a = x as i64;
    let b = 0i64.wrapping_sub(a.wrapping_mul(a) >> 14u64);
    let c0 = (0x00A9i64.wrapping_mul(b) >> 14u64).wrapping_add(0x0390);
    let c1 = (c0.wrapping_mul(b) >> 14u64).wrapping_add(0x091C);
    let c2 = (c1.wrapping_mul(b) >> 14u64).wrapping_add(0x0FB6);
    let c3 = (c2.wrapping_mul(b) >> 14u64).wrapping_add(0x16AA);
    let c4 = (c3.wrapping_mul(b) >> 14u64).wrapping_add(0x2081);
    let c5 = (c4.wrapping_mul(b) >> 14u64).wrapping_add(0x3651);
    let c6 = (c5.wrapping_mul(b) >> 14u64).wrapping_add(0xA2F9);
    (a.wrapping_mul(c6) >> 16u64) as u16
}

/// SWI 09h ArcTan.
fn arctan(x: i32) -> (r: u16)
    ensures
        r == arctan_spec(x),
{
    let a = x as i64;
    let b = 0i64.wrapping_sub(a.wrapping_mul(a) >> 14u64);
    let mut c = (0x00A9i64.wrapping_mul(b) >> 14u64).wrapping_add(0x0390);
    c = (c.wrapping_mul(b) >> 14u64).wrapping_add(0x091C);
    c = (c.wrapping_mul(b) >> 14u64).wrapping_add(0x0FB6);
    c = (c.wrapping_mul(b) >> 14u64).wrapping_add(0x16AA);
    c = (c.wrapping_mul(b) >> 14u64).wrapping_add(0x2081);
    c = (c.wrapping_mul(b) >> 14u64).wrapping_add(0x3651);
    c = (c.wrapping_mul(b) >> 14u64).wrapping_add(0xA2F9);
    (a.wrapping_mul(c) >> 16u64) as u16
}

/// Division of a signed value by a non-zero one, rounding toward zero.
fn quot(n: i32, d: i32) -> (q: i32)
    requires
        d != 0,
        -0x4000_0000 <= n <= 0x4000_0000,
    ensures
        q as int == trunc_quot(n as int, d as int),
{
    let uq = magnitude(n) / magnitude(d);
    proof {
        lemma_fundamental_div_mod(abs(n as int), abs(d as int));
        assert(abs(n as int) / abs(d as int) <= abs(n as int)) by (nonlinear_arith)
            requires
                abs(d as int) >= 1,
                abs(n as int) >= 0,
        ;
    }
    if (n < 0) != (d < 0) {
        0 - (uq as i32)
    } else {
        uq as i32
    }
}

/// The BIOS ArcTan2 angle of (x, y), in units where 0x10000 is a full turn.
pub open spec fn arctan2_spec(x: i32, y: i32) -> u32 {
    let r: u32 = if y == 0 {
        if x < 0 {
            0x8000
        } else {
            0
        }
    } else if x == 0 {
        if y < 0 {
            0xC000
        } else {
            0x4000
        }
    } else if abs(y as int) > abs(x as int) {
        let a = arctan_spec(trunc_quot(x as int * 16384, y as int) as i32) as u32;
        if y < 0 {
            0xC000u32.wrapping_add(a)
        } else {
            0x4000u32.wrapping_add(a)
        }
    } else {
        let a = arctan_spec(trunc_quot(y as int * 16384, x as int) as i32) as u32;
        if x < 0 {
            0x8000u32.wrapping_add(a)
        } else {
            a & 0xFFFF
        }
    };
    r & 0xFFFF
}

/// SWI 0Ah ArcTan2 on the sign-extended low halfwords of r0, r1.
fn arctan2(x: i32, y: i32) -> (r: u32)
    requires
        -0x8000 <= x <= 0x7FFF,
        -0x8000 <= y <= 0x7FFF,
    ensures
        r == arctan2_spec(x, y),
{
    let r: u32 = if y == 0 {
        if x < 0 {
            0x8000
        } else {
            0
        }
    } else if x == 0 {
        if y < 0 {
            0xC000
        } else {
            0x4000
        }
    } else if magnitude(y) > magnitude(x) {
        let a = arctan(quot(x * 16384, y)) as u32;
        if y < 0 {
            0xC000u32.wrapping_add(a)
        } else {
            0x4000u32.wrapping_add(a)
        }
    } else {
        let a = arctan(quot(y * 16384, x)) as u32;
        if x < 0 {
            0x8000u32.wrapping_add(a)
        } else {
            a & 0xFFFF
        }
    };
    r & 0xFFFF
}

/// What SoftReset does to the CPU: the stack pointer of the calling mode is
/// 0x03007F00, the CPU is in System mode (the other CPSR bits kept), R15 is
/// the cartridge entry, and every other register of every mode is kept.
pub open spec fn soft_reset_effect(cpu: Arm7tdmi, after: Arm7tdmi) -> bool {
    &&& after.pipeline == cpu.pipeline
    &&& after.hle_bios == cpu.hle_bios
    &&& after.cpsr == (cpu.cpsr & 0xFFFF_FFE0) | 0x1F
    &&& after.r[15] == 0x0800_0000
    &&& after.reg_in_mode(cpu.cpsr, 13) == 0x0300_7F00
    &&& forall|m: u32, j: int|
        0 <= j < 15 && !(j == 13 && crate::cpu::same_register(m, cpu.cpsr, 13)) ==> #[trigger] after.reg_in_mode(m, j)
            == cpu.reg_in_mode(m, j)
}

/// SWI 00h SoftReset: the stack pointer of the calling mode is reset, the
/// CPU enters System mode, and execution restarts at the cartridge entry.
fn soft_reset(cpu: &mut Arm7tdmi) -> (branched: bool)
    ensures
        branched,
        soft_reset_effect(*old(cpu), *final(cpu)),
{
    cpu.r[13] = 0x0300_7F00;
    let ghost mid = *cpu;
    let c = cpu.cpsr;
    let new = (c & 0xFFFF_FFE0) | 0x1F;
    cpu.write_cpsr(new);
    proof {
        crate::bits::lemma_mode_field(c);
    }
    let ghost w = *cpu;
    cpu.r[15] = 0x0800_0000;
    proof {
        assert(mid.reg_in_mode(old(cpu).cpsr, 13) == 0x0300_7F00);
        assert(w.reg_in_mode(old(cpu).cpsr, 13) == 0x0300_7F00);
        assert(cpu.reg_in_mode(old(cpu).cpsr, 13) == w.reg_in_mode(old(cpu).cpsr, 13));
        assert forall|m: u32, j: int|
            0 <= j < 15 && !(j == 13 && crate::cpu::same_register(m, old(cpu).cpsr, 13)) implies #[trigger] cpu.reg_in_mode(m, j)
                == old(cpu).reg_in_mode(m, j) by {
            assert(cpu.reg_in_mode(m, j) == w.reg_in_mode(m, j));
            assert(w.reg_in_mode(m, j) == mid.reg_in_mode(m, j));
        }
    }
    true
}

/// The zero-fill writes of a RegisterRamReset region.
pub open spec fn zero_fill(start: u32, len: u32) -> Seq<BusEvent> {
    Seq::new((len / 4) as nat, |k: int| write_event(Width::Word, (start + 4 * k) as u32, Access::NonSeq, 0))
}

/// Clear `len` bytes (a multiple of 4) from `start` with word writes.
fn clear<B: Bus>(bus: &mut B, start: u32, len: u32)
    requires
        len % 4 == 0,
        start as int + len as int <= 0x0800_0000,
    ensures
        crate::bus::extends(old(bus).events(), final(bus).events()),
        final(bus).events() == old(bus).events() + zero_fill(start, len),
        final(bus).clock() >= old(bus).clock(),
        old(bus).inv() ==> final(bus).inv(),
        final(bus).setup() == old(bus).setup(),
{
    let mut a = start;
    while a < start + len
        invariant
            start <= a <= start + len,
            (a - start) % 4 == 0,
            start as int + len as int <= 0x0800_0000,
            len % 4 == 0,
            bus.events() == old(bus).events() + zero_fill(start, (a - start) as u32),
            bus.clock() >= old(bus).clock(),
            old(bus).inv() ==> bus.inv(),
            bus.setup() == old(bus).setup(),
        decreases start + len - a,
    {
        bus.write32(a, 0, Access::NonSeq);
        a = a + 4;
        assert(bus.events() =~= old(bus).events() + zero_fill(start, (a - start) as u32));
    }
}

/// The writes of RegisterRamReset for the region mask `flags`.
pub open spec fn ram_reset_events(flags: u32) -> Seq<BusEvent> {
    (if flags & 0x01 != 0 { zero_fill(0x0200_0000, 0x0004_0000) } else { Seq::empty() }) + (if flags & 0x02 != 0 {
        zero_fill(0x0300_0000, 0x0000_7E00)
    } else {
        Seq::empty()
    }) + (if flags & 0x04 != 0 { zero_fill(0x0500_0000, 0x0000_0400) } else { Seq::empty() }) + (if flags & 0x08
        != 0 {
        zero_fill(0x0600_0000, 0x0001_8000)
    } else {
        Seq::empty()
    }) + (if flags & 0x10 != 0 { zero_fill(0x0700_0000, 0x0000_0400) } else { Seq::empty() }) + seq![
        write_event(Width::Half, 0x0400_0000, Access::NonSeq, 0x80),
    ]
}

/// SWI 01h RegisterRamReset: clear the regions r0 selects, then force-blank
/// the display.
fn register_ram_reset<B: Bus>(cpu: &Arm7tdmi, bus: &mut B)
    ensures
        crate::bus::extends(old(bus).events(), final(bus).events()),
        final(bus).events() == old(bus).events() + ram_reset_events(cpu.r[0]),
        final(bus).clock() >= old(bus).clock(),
        old(bus).inv() ==> final(bus).inv(),
        final(bus).setup() == old(bus).setup(),
{
    let flags = cpu.r[0];
    let ghost e0 = bus.events();
    if flags & 0x01 != 0 {
        clear(bus, 0x0200_0000, 0x0004_0000);
    }
    let ghost e1 = bus.events();
    if flags & 0x02 != 0 {
        clear(bus, 0x0300_0000, 0x0000_7E00);
    }
    let ghost e2 = bus.events();
    if flags & 0x04 != 0 {
        clear(bus, 0x0500_0000, 0x0000_0400);
    }
    let ghost e3 = bus.events();
    if flags & 0x08 != 0 {
        clear(bus, 0x0600_0000, 0x0001_8000);
    }
    let ghost e4 = bus.events();
    if flags & 0x10 != 0 {
        clear(bus, 0x0700_0000, 0x0000_0400);
    }
    bus.write16(0x0400_0000, 0x0080, Access::NonSeq);
    assert(bus.events() =~= e0 + ram_reset_events(flags));
    assert(bus.events().subrange(0, e0.len() as int) =~= e0);
}

/// SWI 04h IntrWait: force IME on, then halt until an interrupt.
fn intr_wait<B: Bus>(bus: &mut B)
    ensures
        crate::bus::extends(old(bus).events(), final(bus).events()),
        final(bus).events() == old(bus).events().push(write_event(Width::Half, 0x0400_0208, Access::NonSeq, 1)).push(
            BusEvent::Halt { halted: true },
        ),
        final(bus).clock() >= old(bus).clock(),
        old(bus).inv() ==> final(bus).inv(),
        final(bus).setup() == old(bus).setup(),
{
    bus.write16(0x0400_0208, 1, Access::NonSeq);
    bus.set_halted(true);
    assert(bus.events().subrange(0, old(bus).events().len() as int) =~= old(bus).events());
}

/// The bus traffic of a CpuSet-style transfer of `count` units of `width`
/// (`unit` bytes) from `src` to `dst`: one read of the first source unit, then
/// for a copy a read and a write per unit, for a fill a write of the first
/// value per unit.
pub open spec fn set_traffic(
    ev0: Seq<BusEvent>,
    ev1: Seq<BusEvent>,
    width: Width,
    unit: u32,
    src: u32,
    dst: u32,
    count: int,
    fill: bool,
) -> bool {
    let b = ev0.len() as int;
    &&& ev1.len() == b + 1 + if fill { count } else { 2 * count }
    &&& ev1.subrange(0, b) == ev0
    &&& ev1[b] == crate::bus::read_event(width, src, Access::NonSeq, crate::bus::event_value(ev1[b]))
    &&& forall|k: int|
        0 <= k < count ==> if fill {
            #[trigger] ev1[b + 1 + k] == write_event(
                width,
                dst.wrapping_add((unit * k) as u32),
                Access::NonSeq,
                crate::bus::event_value(ev1[b]),
            )
        } else {
            &&& #[trigger] ev1[b + 1 + 2 * k] == crate::bus::read_event(
                width,
                src.wrapping_add((unit * k) as u32),
                Access::NonSeq,
                crate::bus::event_value(ev1[b + 1 + 2 * k]),
            )
            &&& ev1[b + 2 + 2 * k] == write_event(
                width,
                dst.wrapping_add((unit * k) as u32),
                Access::NonSeq,
                crate::bus::event_value(ev1[b + 1 + 2 * k]),
            )
        }
}

/// SWI 0Bh CpuSet: copy or fill `r2 & 0xFFFFF` units of 16 or 32 bits from r0
/// to r1 (bit 24 of r2: fill, bit 26: 32-bit).
fn cpu_set<B: Bus>(cpu: &Arm7tdmi, bus: &mut B)
    ensures
        crate::bus::extends(old(bus).events(), final(bus).events()),
        ({
            let ctl = cpu.r[2];
            let word = ctl & 0x0400_0000 != 0;
            let fill = ctl & 0x0100_0000 != 0;
            let count = (ctl & 0x000F_FFFF) as int;
            if word {
                set_traffic(old(bus).events(), final(bus).events(), Width::Word, 4, cpu.r[0] & 0xFFFF_FFFC, cpu.r[1] & 0xFFFF_FFFC, count, fill)
            } else {
                set_traffic(old(bus).events(), final(bus).events(), Width::Half, 2, cpu.r[0] & 0xFFFF_FFFE, cpu.r[1] & 0xFFFF_FFFE, count, fill)
            }
        }),
        final(bus).clock() >= old(bus).clock(),
        old(bus).inv() ==> final(bus).inv(),
        final(bus).setup() == old(bus).setup(),
{
    let ctl = cpu.r[2];
    let count = ctl & 0x000F_FFFF;
    let fill = ctl & 0x0100_0000 != 0;
    let word = ctl & 0x0400_0000 != 0;
    proof {
        crate::bits::lemma_u32_bits(ctl, 0x000F_FFFF);
    }
    if word {
        transfer_units(bus, cpu.r[0] & 0xFFFF_FFFC, cpu.r[1] & 0xFFFF_FFFC, count, fill, true);
    } else {
        transfer_units(bus, cpu.r[0] & 0xFFFF_FFFE, cpu.r[1] & 0xFFFF_FFFE, count, fill, false);
    }
}

/// SWI 0Ch CpuFastSet: 32-bit copy or fill, the count rounded up to a
/// multiple of 8.
fn cpu_fast_set<B: Bus>(cpu: &Arm7tdmi, bus: &mut B)
    ensures
        crate::bus::extends(old(bus).events(), final(bus).events()),
        ({
            let ctl = cpu.r[2];
            let count = (((ctl & 0x000F_FFFF) + 7) / 8 * 8) as int;
            set_traffic(
                old(bus).events(),
                final(bus).events(),
                Width::Word,
                4,
                cpu.r[0] & 0xFFFF_FFFC,
                cpu.r[1] & 0xFFFF_FFFC,
                count,
                ctl & 0x0100_0000 != 0,
            )
        }),
        final(bus).clock() >= old(bus).clock(),
        old(bus).inv() ==> final(bus).inv(),
        final(bus).setup() == old(bus).setup(),
{
    let ctl = cpu.r[2];
    let raw = ctl & 0x000F_FFFF;
    proof {
        crate::bits::lemma_u32_bits(ctl, 0x000F_FFFF);
    }
    let count = (raw + 7) / 8 * 8;
    let fill = ctl & 0x0100_0000 != 0;
    transfer_units(bus, cpu.r[0] & 0xFFFF_FFFC, cpu.r[1] & 0xFFFF_FFFC, count, fill, true);
}

/// The shared copy/fill loop of CpuSet and CpuFastSet.
fn transfer_units<B: Bus>(bus: &mut B, src0: u32, dst0: u32, count: u32, fill: bool, word: bool)
    requires
        count <= 0x10_0000,
    ensures
        crate::bus::extends(old(bus).events(), final(bus).events()),
        if word {
            set_traffic(old(bus).events(), final(bus).events(), Width::Word, 4, src0, dst0, count as int, fill)
        } else {
            set_traffic(old(bus).events(), final(bus).events(), Width::Half, 2, src0, dst0, count as int, fill)
        },
        final(bus).clock() >= old(bus).clock(),
        old(bus).inv() ==> final(bus).inv(),
        final(bus).setup() == old(bus).setup(),
{
    let unit: u32 = if word { 4 } else { 2 };
    let width = if word { Width::Word } else { Width::Half };
    let ghost ev0 = bus.events();
    let ghost b = ev0.len() as int;
    let first = if word { bus.read32(src0, Access::NonSeq) } else { bus.read16(src0, Access::NonSeq) as u32 };
    let mut src = src0;
    let mut dst = dst0;
    let mut i: u32 = 0;
    while i < count
        invariant
            i <= count <= 0x10_0000,
            unit == if word { 4u32 } else { 2u32 },
            width == if word { Width::Word } else { Width::Half },
            src == if fill { src0 } else { src0.wrapping_add((unit * i) as u32) },
            !word ==> first < 0x1_0000,
            dst == dst0.wrapping_add((unit * i) as u32),
            bus.events().len() == b + 1 + if fill { i as int } else { 2 * i as int },
            bus.events().subrange(0, b) == ev0,
            ev0 == old(bus).events(),
            b == ev0.len(),
            bus.events()[b] == crate::bus::read_event(width, src0, Access::NonSeq, first),
            first == crate::bus::event_value(bus.events()[b]),
            bus.clock() >= old(bus).clock(),
            old(bus).inv() ==> bus.inv(),
            bus.setup() == old(bus).setup(),
            forall|k: int|
                0 <= k < i ==> if fill {
                    #[trigger] bus.events()[b + 1 + k] == write_event(
                        width,
                        dst0.wrapping_add((unit * k) as u32),
                        Access::NonSeq,
                        first,
                    )
                } else {
                    &&& #[trigger] bus.events()[b + 1 + 2 * k] == crate::bus::read_event(
                        width,
                        src0.wrapping_add((unit * k) as u32),
                        Access::NonSeq,
                        crate::bus::event_value(bus.events()[b + 1 + 2 * k]),
                    )
                    &&& bus.events()[b + 2 + 2 * k] == write_event(
                        width,
                        dst0.wrapping_add((unit * k) as u32),
                        Access::NonSeq,
                        crate::bus::event_value(bus.events()[b + 1 + 2 * k]),
                    )
                },
        decreases count - i,
    {
        let ghost evb = bus.events();
        let val = if fill {
            first
        } else if word {
            bus.read32(src, Access::NonSeq)
        } else {
            bus.read16(src, Access::NonSeq) as u32
        };
        if !fill {
            src = src.wrapping_add(unit);
        }
        if word {
            bus.write32(dst, val, Access::NonSeq);
        } else {
            proof {
                crate::bits::lemma_u32_bits(val, 0);
                assert(val < 0x1_0000);
            }
            bus.write16(dst, val as u16, Access::NonSeq);
        }
        dst = dst.wrapping_add(unit);
        proof {
            assert(bus.events().subrange(0, b) =~= ev0);
            assert forall|k: int| 0 <= k < evb.len() implies bus.events()[k] == evb[k] by {}
        }
        i = i + 1;
    }
    proof {
        assert(bus.events().subrange(0, b) =~= ev0);
    }
}

/// The writes that store decompressed `data` at `dst`: halfwords (pairs of
/// bytes, a trailing odd byte alone) for VRAM, bytes otherwise.
pub open spec fn out_events(dst: u32, data: Seq<u8>, vram: bool) -> Seq<BusEvent> {
    if vram {
        Seq::new(
            ((data.len() + 1) / 2) as nat,
            |k: int|
                write_event(
                    Width::Half,
                    dst.wrapping_add((2 * k) as u32),
                    Access::NonSeq,
                    if 2 * k + 1 < data.len() {
                        (data[2 * k] as u32) | ((data[2 * k + 1] as u32) << 8)
                    } else {
                        data[2 * k] as u32
                    },
                ),
        )
    } else {
        Seq::new(data.len(), |k: int| write_event(Width::Byte, dst.wrapping_add(k as u32), Access::NonSeq, data[k] as u32))
    }
}

/// Store a decompressed buffer.
fn write_out<B: Bus>(bus: &mut B, dst: u32, data: &Vec<u8>, vram: bool)
    requires
        data@.len() < 0x1_0000_0000,
    ensures
        crate::bus::extends(old(bus).events(), final(bus).events()),
        final(bus).events() == old(bus).events() + out_events(dst, data@, vram),
        final(bus).clock() >= old(bus).clock(),
        old(bus).inv() ==> final(bus).inv(),
        final(bus).setup() == old(bus).setup(),
{
    let ghost ev0 = bus.events();
    if vram {
        let mut i: usize = 0;
        while i + 1 < data.len()
            invariant
                i % 2 == 0,
                i <= data@.len(),
                data@.len() < 0x1_0000_0000,
                bus.events() == ev0 + out_events(dst, data@.subrange(0, i as int), true),
                ev0 == old(bus).events(),
                bus.clock() >= old(bus).clock(),
                old(bus).inv() ==> bus.inv(),
                bus.setup() == old(bus).setup(),
            decreases data@.len() - i,
        {
            let lo = data[i] as u16;
            let hi = data[i + 1] as u16;
            let h = lo | (hi << 8);
            proof {
                crate::bits::lemma_u16_bits(lo, hi);
            }
            bus.write16(dst.wrapping_add(i as u32), h, Access::NonSeq);
            i = i + 2;
            assert(bus.events() =~= ev0 + out_events(dst, data@.subrange(0, i as int), true));
        }
        if i < data.len() {
            bus.write16(dst.wrapping_add(i as u32), data[i] as u16, Access::NonSeq);
            assert(bus.events() =~= ev0 + out_events(dst, data@.subrange(0, i as int + 1), true));
            assert(data@.subrange(0, i as int + 1) =~= data@);
        } else {
            assert(data@.subrange(0, i as int) =~= data@);
        }
    } else {
        let mut i: usize = 0;
        while i < data.len()
            invariant
                i <= data@.len(),
                data@.len() < 0x1_0000_0000,
                bus.events() == ev0 + out_events(dst, data@.subrange(0, i as int), false),
                ev0 == old(bus).events(),
                bus.clock() >= old(bus).clock(),
                old(bus).inv() ==> bus.inv(),
                bus.setup() == old(bus).setup(),
            decreases data@.len() - i,
        {
            bus.write8(dst.wrapping_add(i as u32), data[i], Access::NonSeq);
            i = i + 1;
            assert(bus.events() =~= ev0 + out_events(dst, data@.subrange(0, i as int), false));
        }
        assert(data@.subrange(0, i as int) =~= data@);
    }
}

/// A decompression call ended by storing, at `dst`, a buffer of at most the
/// size its header (the first word read) announced.
pub open spec fn stored_output(ev0: Seq<BusEvent>, ev1: Seq<BusEvent>, dst: u32, vram: bool, slack: int) -> bool {
    exists|mid: Seq<BusEvent>, out: Seq<u8>|
        #![trigger out_events(dst, out, vram), mid.len()]
        {
            &&& ev1 == mid + out_events(dst, out, vram)
            &&& mid.len() > ev0.len()
            &&& mid.subrange(0, ev0.len() as int) == ev0
            &&& out.len() <= (crate::bus::event_value(mid[ev0.len() as int]) >> 8) + slack
        }
}

/// SWI 11h/12h LZ77UnComp: LZSS with 8-flag groups, MSB first; a set flag is
/// a back-reference (length 3..18, distance 1..4096), a clear one a literal.
/// A back-reference reaching before the start of the output ends decoding.
fn lz77_uncomp<B: Bus>(cpu: &Arm7tdmi, bus: &mut B, vram: bool)
    ensures
        crate::bus::extends(old(bus).events(), final(bus).events()),
        stored_output(old(bus).events(), final(bus).events(), cpu.r[1], vram, 0),
        final(bus).clock() >= old(bus).clock(),
        old(bus).inv() ==> final(bus).inv(),
        final(bus).setup() == old(bus).setup(),
{
    let mut src = cpu.r[0];
    let dst = cpu.r[1];
    let ghost ev0 = bus.events();
    let header = bus.read32(src, Access::NonSeq);
    let ghost e1 = bus.events();
    assert(e1.subrange(0, ev0.len() as int) =~= ev0);
    src = src.wrapping_add(4);
    let size = (header >> 8) as usize;
    let mut out: Vec<u8> = Vec::new();
    let mut bad = false;
    while out.len() < size && !bad
        invariant
            out@.len() <= size,
            size == (header >> 8) as usize,
            bus.events().len() >= e1.len(),
            bus.events().subrange(0, e1.len() as int) == e1,
            bus.clock() >= old(bus).clock(),
            old(bus).inv() ==> bus.inv(),
            bus.setup() == old(bus).setup(),
        decreases size - out@.len(), if bad { 0int } else { 1int },
    {
        let ghost start_len = out@.len();
        let ghost evs = bus.events();
        let flags = bus.read8(src, Access::NonSeq);
        assert(bus.events().subrange(0, e1.len() as int) =~= evs.subrange(0, e1.len() as int));
        src = src.wrapping_add(1);
        let mut bit: u32 = 0;
        while bit < 8
            invariant
                out@.len() <= size,
                out@.len() >= start_len,
                bit > 0 && !bad ==> out@.len() > start_len,
                bit == 0 ==> out@.len() == start_len && out@.len() < size && !bad,
                size == (header >> 8) as usize,
                bus.events().len() >= e1.len(),
                bus.events().subrange(0, e1.len() as int) == e1,
                bus.clock() >= old(bus).clock(),
                old(bus).inv() ==> bus.inv(),
                bus.setup() == old(bus).setup(),
            ensures
                out@.len() <= size,
                out@.len() >= start_len,
                bad || out@.len() > start_len,
                bus.events().len() >= e1.len(),
                bus.events().subrange(0, e1.len() as int) == e1,
                bus.clock() >= old(bus).clock(),
                old(bus).inv() ==> bus.inv(),
                bus.setup() == old(bus).setup(),
            decreases 8 - bit,
        {
            if out.len() >= size || bad {
                break;
            }
            let ghost evb = bus.events();
            if flags & (0x80u8 >> bit) != 0 {
                let b0 = bus.read8(src, Access::NonSeq) as usize;
                let b1 = bus.read8(src.wrapping_add(1), Access::NonSeq) as usize;
                src = src.wrapping_add(2);
                let len = b0 / 16 + 3;
                let disp = (b0 % 16) * 256 + b1 + 1;
                if disp > out.len() {
                    bad = true;
                } else {
                    let ghost entry_len = out@.len();
                    let mut k: usize = 0;
                    while k < len
                        invariant
                            out@.len() <= size,
                            out@.len() >= entry_len,
                            k > 0 ==> out@.len() > entry_len,
                            k == 0 ==> out@.len() == entry_len,
                            1 <= disp <= out@.len(),
                            len >= 3,
                        ensures
                            out@.len() <= size,
                            out@.len() >= entry_len,
                            entry_len < size ==> out@.len() > entry_len,
                        decreases len - k,
                    {
                        if out.len() >= size {
                            break;
                        }
                        let byte = out[out.len() - disp];
                        out.push(byte);
                        k = k + 1;
                    }
                }
            } else {
                let lit = bus.read8(src, Access::NonSeq);
                out.push(lit);
                src = src.wrapping_add(1);
            }
            assert(bus.events().subrange(0, e1.len() as int) =~= evb.subrange(0, e1.len() as int));
            bit = bit + 1;
        }
        assert(bad || out@.len() > start_len);
    }
    let ghost mid = bus.events();
    write_out(bus, dst, &out, vram);
    proof {
        assert(mid.subrange(0, ev0.len() as int) =~= e1.subrange(0, ev0.len() as int));
        assert(mid[ev0.len() as int] == e1[ev0.len() as int]);
        assert(bus.events() == mid + out_events(dst, out@, vram));
        assert(bus.events().subrange(0, ev0.len() as int) =~= ev0);
    }
}

/// SWI 14h/15h RLUnComp: a flag byte with bit 7 set is a run of (bits0..6) + 3
/// copies of the next byte, otherwise (bits0..6) + 1 literal bytes follow.
fn rl_uncomp<B: Bus>(cpu: &Arm7tdmi, bus: &mut B, vram: bool)
    ensures
        crate::bus::extends(old(bus).events(), final(bus).events()),
        stored_output(old(bus).events(), final(bus).events(), cpu.r[1], vram, 0),
        final(bus).clock() >= old(bus).clock(),
        old(bus).inv() ==> final(bus).inv(),
        final(bus).setup() == old(bus).setup(),
{
    let mut src = cpu.r[0];
    let dst = cpu.r[1];
    let ghost ev0 = bus.events();
    let header = bus.read32(src, Access::NonSeq);
    let ghost e1 = bus.events();
    assert(e1.subrange(0, ev0.len() as int) =~= ev0);
    src = src.wrapping_add(4);
    let size = (header >> 8) as usize;
    let mut out: Vec<u8> = Vec::new();
    while out.len() < size
        invariant
            out@.len() <= size,
            size == (header >> 8) as usize,
            bus.events().len() >= e1.len(),
            bus.events().subrange(0, e1.len() as int) == e1,
            bus.clock() >= old(bus).clock(),
            old(bus).inv() ==> bus.inv(),
            bus.setup() == old(bus).setup(),
        decreases size - out@.len(),
    {
        let ghost start_len = out@.len();
        let ghost evs = bus.events();
        let flag = bus.read8(src, Access::NonSeq);
        src = src.wrapping_add(1);
        if flag & 0x80 != 0 {
            let len = (flag & 0x7F) as usize + 3;
            let byte = bus.read8(src, Access::NonSeq);
            src = src.wrapping_add(1);
            let mut k: usize = 0;
            while k < len
                invariant
                    out@.len() <= size,
                    out@.len() >= start_len,
                    k > 0 ==> out@.len() > start_len,
                    k == 0 ==> out@.len() == start_len && start_len < size,
                    len >= 1,
                ensures
                    out@.len() <= size,
                    out@.len() > start_len,
                decreases len - k,
            {
                if out.len() >= size {
                    break;
                }
                out.push(byte);
                k = k + 1;
            }
        } else {
            let len = (flag & 0x7F) as usize + 1;
            let mut k: usize = 0;
            while k < len
                invariant
                    out@.len() <= size,
                    out@.len() >= start_len,
                    k > 0 ==> out@.len() > start_len,
                    k == 0 ==> out@.len() == start_len && start_len < size,
                    len >= 1,
                    bus.events().len() >= e1.len(),
                    bus.events().subrange(0, e1.len() as int) == e1,
                    bus.clock() >= old(bus).clock(),
                    old(bus).inv() ==> bus.inv(),
                    bus.setup() == old(bus).setup(),
                ensures
                    out@.len() <= size,
                    out@.len() > start_len,
                    bus.events().len() >= e1.len(),
                    bus.events().subrange(0, e1.len() as int) == e1,
                    bus.clock() >= old(bus).clock(),
                    old(bus).inv() ==> bus.inv(),
                    bus.setup() == old(bus).setup(),
                decreases len - k,
            {
                if out.len() >= size {
                    break;
                }
                let ghost evb = bus.events();
                let b = bus.read8(src, Access::NonSeq);
                assert(bus.events().subrange(0, e1.len() as int) =~= evb.subrange(0, e1.len() as int));
                out.push(b);
                src = src.wrapping_add(1);
                k = k + 1;
            }
        }
        assert(bus.events().subrange(0, e1.len() as int) =~= evs.subrange(0, e1.len() as int)) by {
            assert(evs.subrange(0, e1.len() as int) == e1);
        }
        assert(out@.len() > start_len);
    }
    let ghost mid = bus.events();
    write_out(bus, dst, &out, vram);
    proof {
        assert(mid.subrange(0, ev0.len() as int) =~= e1.subrange(0, ev0.len() as int));
        assert(mid[ev0.len() as int] == e1[ev0.len() as int]);
        assert(bus.events() == mid + out_events(dst, out@, vram));
        assert(bus.events().subrange(0, ev0.len() as int) =~= ev0);
    }
}

/// SWI 16h/17h Diff8bitUnFilter: undo a per-byte delta filter.
fn diff8_unfilter<B: Bus>(cpu: &Arm7tdmi, bus: &mut B, vram: bool)
    ensures
        crate::bus::extends(old(bus).events(), final(bus).events()),
        stored_output(old(bus).events(), final(bus).events(), cpu.r[1], vram, 0),
        final(bus).clock() >= old(bus).clock(),
        old(bus).inv() ==> final(bus).inv(),
        final(bus).setup() == old(bus).setup(),
{
    let mut src = cpu.r[0];
    let dst = cpu.r[1];
    let ghost ev0 = bus.events();
    let header = bus.read32(src, Access::NonSeq);
    let ghost e1 = bus.events();
    assert(e1.subrange(0, ev0.len() as int) =~= ev0);
    src = src.wrapping_add(4);
    let size = (header >> 8) as usize;
    let mut out: Vec<u8> = Vec::new();
    let mut acc: u8 = 0;
    while out.len() < size
        invariant
            out@.len() <= size,
            size == (header >> 8) as usize,
            bus.events().len() >= e1.len(),
            bus.events().subrange(0, e1.len() as int) == e1,
            bus.clock() >= old(bus).clock(),
            old(bus).inv() ==> bus.inv(),
            bus.setup() == old(bus).setup(),
        decreases size - out@.len(),
    {
        let ghost evb = bus.events();
        let d = bus.read8(src, Access::NonSeq);
        assert(bus.events().subrange(0, e1.len() as int) =~= evb.subrange(0, e1.len() as int));
        acc = acc.wrapping_add(d);
        src = src.wrapping_add(1);
        out.push(acc);
    }
    let ghost mid = bus.events();
    write_out(bus, dst, &out, vram);
    proof {
        assert(mid.subrange(0, ev0.len() as int) =~= e1.subrange(0, ev0.len() as int));
        assert(mid[ev0.len() as int] == e1[ev0.len() as int]);
        assert(bus.events() == mid + out_events(dst, out@, vram));
        assert(bus.events().subrange(0, ev0.len() as int) =~= ev0);
    }
}

/// SWI 18h Diff16bitUnFilter: undo a per-halfword delta filter (into 16-bit
/// memory).
fn diff16_unfilter<B: Bus>(cpu: &Arm7tdmi, bus: &mut B)
    ensures
        crate::bus::extends(old(bus).events(), final(bus).events()),
        stored_output(old(bus).events(), final(bus).events(), cpu.r[1], true, 1),
        final(bus).clock() >= old(bus).clock(),
        old(bus).inv() ==> final(bus).inv(),
        final(bus).setup() == old(bus).setup(),
{
    let mut src = cpu.r[0];
    let dst = cpu.r[1];
    let ghost ev0 = bus.events();
    let header = bus.read32(src, Access::NonSeq);
    let ghost e1 = bus.events();
    assert(e1.subrange(0, ev0.len() as int) =~= ev0);
    src = src.wrapping_add(4);
    proof {
        crate::bits::lemma_u32_bits(header, 0);
    }
    let size = (header >> 8) as usize;
    let mut out: Vec<u8> = Vec::new();
    let mut acc: u16 = 0;
    while out.len() < size
        invariant
            out@.len() <= size + 1,
            size == (header >> 8) as usize,
            size < 0x100_0000,
            bus.events().len() >= e1.len(),
            bus.events().subrange(0, e1.len() as int) == e1,
            bus.clock() >= old(bus).clock(),
            old(bus).inv() ==> bus.inv(),
            bus.setup() == old(bus).setup(),
        decreases size + 1 - out@.len(),
    {
        let ghost evb = bus.events();
        let d = bus.read16(src, Access::NonSeq);
        assert(bus.events().subrange(0, e1.len() as int) =~= evb.subrange(0, e1.len() as int));
        acc = acc.wrapping_add(d);
        src = src.wrapping_add(2);
        out.push((acc & 0xFF) as u8);
        out.push((acc >> 8) as u8);
    }
    let ghost mid = bus.events();
    write_out(bus, dst, &out, true);
    proof {
        assert(mid.subrange(0, ev0.len() as int) =~= e1.subrange(0, ev0.len() as int));
        assert(mid[ev0.len() as int] == e1[ev0.len() as int]);
        assert(bus.events() == mid + out_events(dst, out@, true));
        assert(bus.events().subrange(0, ev0.len() as int) =~= ev0);
    }
}

/// The settings of an unpack: source and destination unit widths, the
/// offset added, and whether it is added to zero units too.
pub struct UnpackParams {
    pub src_w: u32,
    pub dst_w: u32,
    pub offset: u32,
    pub zero_off: bool,
}

/// The output being assembled: the word so far, how many of its bits are
/// filled, and where it goes.
pub type PackState = (u32, u32, u32);

/// Source unit at `bitpos` of byte `b`, widened and packed into state
/// `st`: the unit (bits `bitpos`.. of width `src_w`) plus the offset, or 0
/// for a zero unit without the zero flag, goes in at the next `dst_w` bits;
/// a filled word is written and the next one starts at the following
/// address. The write events and the state after the units of `b` from
/// `bitpos` on.
pub open spec fn unpack_units(pr: UnpackParams, st: PackState, b: u32, bitpos: u32) -> (Seq<BusEvent>, PackState)
    decreases 40 - bitpos,
    when 1 <= pr.src_w < 32 && 1 <= pr.dst_w <= 255 && st.1 < 32
{
    if bitpos >= 8 {
        (Seq::empty(), st)
    } else {
        let unit = (b >> bitpos) & (((1u32 << pr.src_w) - 1) as u32);
        let val = if unit != 0 || pr.zero_off { unit.wrapping_add(pr.offset) } else { 0 };
        let out = st.0 | (val << st.1);
        let (ev, st1): (Seq<BusEvent>, PackState) = if st.1 + pr.dst_w >= 32 {
            (seq![write_event(Width::Word, st.2, Access::NonSeq, out)], (0u32, 0u32, st.2.wrapping_add(4)))
        } else {
            (Seq::empty(), (out, (st.1 + pr.dst_w) as u32, st.2))
        };
        let (rest, st2) = unpack_units(pr, st1, b, (bitpos + pr.src_w) as u32);
        (ev + rest, st2)
    }
}

/// The events of unpacking source bytes `bytes` read from `src` on, from
/// state `st`: each byte's read followed by the writes of its units; and the
/// state after them.
pub open spec fn unpack_bytes(pr: UnpackParams, st: PackState, src: u32, bytes: Seq<u8>) -> (Seq<BusEvent>, PackState)
    decreases bytes.len(),
{
    if bytes.len() == 0 {
        (Seq::empty(), st)
    } else {
        let n = bytes.len() - 1;
        let (ev, st1) = unpack_bytes(pr, st, src, bytes.drop_last());
        let (wr, st2) = unpack_units(pr, st1, bytes[n] as u32, 0);
        (ev + seq![read_event(Width::Byte, src.wrapping_add(n as u32), Access::NonSeq, bytes[n] as u32)] + wr, st2)
    }
}

/// The events of a whole unpack of `bytes` from `src` to `dst`: the
/// unpacking, then the last, partly filled word when there is one.
pub open spec fn unpack_events(pr: UnpackParams, src: u32, dst: u32, bytes: Seq<u8>) -> Seq<BusEvent> {
    let (ev, st) = unpack_bytes(pr, (0u32, 0u32, dst), src, bytes);
    if st.1 > 0 {
        ev.push(write_event(Width::Word, st.2, Access::NonSeq, st.0))
    } else {
        ev
    }
}

/// The events of a BitUnPack call with r0 = `src`, r1 = `dst`, r2 =
/// `param` that read the header values `len`, `sw`, `dw`, `ow` and the
/// source bytes `bytes`: the four header reads, then, unless a width is
/// zero or the source width is 32 or more, the unpack.
pub open spec fn bit_unpack_events(src: u32, dst: u32, param: u32, len: u16, sw: u8, dw: u8, ow: u32, bytes: Seq<u8>) -> Seq<
    BusEvent,
> {
    let hdr = seq![
        read_event(Width::Half, param, Access::NonSeq, len as u32),
        read_event(Width::Byte, param.wrapping_add(2), Access::NonSeq, sw as u32),
        read_event(Width::Byte, param.wrapping_add(3), Access::NonSeq, dw as u32),
        read_event(Width::Word, param.wrapping_add(4), Access::NonSeq, ow),
    ];
    if sw == 0 || dw == 0 || sw >= 32 {
        hdr
    } else {
        let pr = UnpackParams { src_w: sw as u32, dst_w: dw as u32, offset: ow & 0x7FFF_FFFF, zero_off: ow & 0x8000_0000 != 0 };
        hdr + unpack_events(pr, src, dst, bytes)
    }
}

/// SWI 10h BitUnPack: widen packed 1/2/4/8-bit source units into wider
/// destination units, adding an offset (to zero units too when bit 31 of the
/// offset word is set). r2 points at {len: u16, src_width: u8, dst_width: u8,
/// offset: u32}. A zero width, or a source width of 32 bits or more (which
/// has no unit mask), ends the call without output.
fn bit_unpack<B: Bus>(cpu: &Arm7tdmi, bus: &mut B)
    ensures
        exists|len: u16, sw: u8, dw: u8, ow: u32, bytes: Seq<u8>|
            #![trigger bit_unpack_events(cpu.r[0], cpu.r[1], cpu.r[2], len, sw, dw, ow, bytes)]
            {
                &&& bytes.len() == len
                &&& final(bus).events() == old(bus).events() + bit_unpack_events(
                    cpu.r[0],
                    cpu.r[1],
                    cpu.r[2],
                    len,
                    sw,
                    dw,
                    ow,
                    bytes,
                )
            },
        final(bus).events().len() >= old(bus).events().len(),
        final(bus).events().subrange(0, old(bus).events().len() as int) == old(bus).events(),
        final(bus).clock() >= old(bus).clock(),
        old(bus).inv() ==> final(bus).inv(),
        final(bus).setup() == old(bus).setup(),
{
    let ghost ev0 = bus.events();
    let mut src = cpu.r[0];
    let mut dst = cpu.r[1];
    let param = cpu.r[2];
    let len16 = bus.read16(param, Access::NonSeq);
    let len = len16 as u32;
    let sw8 = bus.read8(param.wrapping_add(2), Access::NonSeq);
    let dw8 = bus.read8(param.wrapping_add(3), Access::NonSeq);
    let src_w = sw8 as u32;
    let dst_w = dw8 as u32;
    let off_word = bus.read32(param.wrapping_add(4), Access::NonSeq);
    let offset = off_word & 0x7FFF_FFFF;
    let zero_off = off_word & 0x8000_0000 != 0;
    let ghost hdr = bus.events();
    assert(bus.events().subrange(0, ev0.len() as int) =~= ev0);
    if src_w == 0 || dst_w == 0 || src_w >= 32 {
        proof {
            let bytes = Seq::new(len as nat, |k: int| 0u8);
            assert(bus.events() =~= ev0 + bit_unpack_events(cpu.r[0], cpu.r[1], param, len16, sw8, dw8, off_word, bytes));
        }
        return;
    }
    proof {
        crate::bits::lemma_u32_bits(0, src_w);
    }
    let src_mask: u32 = (1u32 << src_w) - 1;
    let ghost pr = UnpackParams { src_w, dst_w, offset, zero_off };
    let ghost mut bytes: Seq<u8> = Seq::empty();
    let mut out: u32 = 0;
    let mut out_bits: u32 = 0;
    let mut i: u32 = 0;
    assert(hdr =~= ev0 + bit_unpack_events(cpu.r[0], cpu.r[1], param, len16, sw8, dw8, off_word, bytes).subrange(0, 4));
    while i < len
        invariant
            out_bits < 32,
            1 <= src_w < 32,
            1 <= dst_w <= 255,
            i <= len,
            pr == (UnpackParams { src_w, dst_w, offset, zero_off }),
            src_mask == ((1u32 << src_w) - 1) as u32,
            bytes.len() == i,
            src == cpu.r[0].wrapping_add(i),
            hdr.len() == ev0.len() + 4,
            hdr.subrange(0, ev0.len() as int) == ev0,
            bus.events() == hdr + unpack_bytes(pr, (0u32, 0u32, cpu.r[1]), cpu.r[0], bytes).0,
            (out, out_bits, dst) == unpack_bytes(pr, (0u32, 0u32, cpu.r[1]), cpu.r[0], bytes).1,
            bus.clock() >= old(bus).clock(),
            old(bus).inv() ==> bus.inv(),
            bus.setup() == old(bus).setup(),
        decreases len - i,
    {
        let ghost eb = bus.events();
        let ghost st0: PackState = (out, out_bits, dst);
        let b8 = bus.read8(src, Access::NonSeq);
        let byte = b8 as u32;
        let ghost ea = bus.events();
        src = src.wrapping_add(1);
        let mut bitpos: u32 = 0;
        while bitpos < 8
            invariant
                out_bits < 32,
                1 <= src_w < 32,
                1 <= dst_w <= 255,
                bitpos < 8 + 32,
                pr == (UnpackParams { src_w, dst_w, offset, zero_off }),
                src_mask == ((1u32 << src_w) - 1) as u32,
                byte == b8 as u32,
                ({
                    let (rest, st2) = unpack_units(pr, (out, out_bits, dst), byte, bitpos);
                    &&& unpack_units(pr, st0, byte, 0).1 == st2
                    &&& ea + unpack_units(pr, st0, byte, 0).0 == bus.events() + rest
                }),
                bus.clock() >= old(bus).clock(),
                old(bus).inv() ==> bus.inv(),
                bus.setup() == old(bus).setup(),
            decreases 8 + 32 - bitpos,
        {
            let ghost ei = bus.events();
            let ghost sti: PackState = (out, out_bits, dst);
            let unit = (byte >> bitpos) & src_mask;
            let val = if unit != 0 || zero_off { unit.wrapping_add(offset) } else { 0 };
            out = out | (val << out_bits);
            if out_bits + dst_w >= 32 {
                bus.write32(dst, out, Access::NonSeq);
                dst = dst.wrapping_add(4);
                out = 0;
                out_bits = 0;
            } else {
                out_bits = out_bits + dst_w;
            }
            proof {
                let (rest, st2) = unpack_units(pr, sti, byte, bitpos);
                let (rest2, st3) = unpack_units(pr, (out, out_bits, dst), byte, (bitpos + src_w) as u32);
                assert(st2 == st3);
                assert(bus.events() + rest2 =~= ei + rest);
            }
            bitpos = bitpos + src_w;
        }
        proof {
            let (rest, st2) = unpack_units(pr, (out, out_bits, dst), byte, bitpos);
            assert(rest.len() == 0);
            let nb = bytes.push(b8);
            assert(nb.drop_last() =~= bytes);
            assert(ea =~= eb.push(read_event(Width::Byte, cpu.r[0].wrapping_add(i), Access::NonSeq, b8 as u32)));
            assert(bus.events() =~= hdr + unpack_bytes(pr, (0u32, 0u32, cpu.r[1]), cpu.r[0], nb).0);
            bytes = nb;
        }
        i = i + 1;
    }
    let ghost el = bus.events();
    if out_bits > 0 {
        bus.write32(dst, out, Access::NonSeq);
    }
    proof {
        assert(bus.events() =~= ev0 + bit_unpack_events(cpu.r[0], cpu.r[1], param, len16, sw8, dw8, off_word, bytes));
        assert(bus.events().subrange(0, ev0.len() as int) =~= ev0);
    }
}

/// SWI 13h HuffUnComp: Huffman decoding. The header's bits 0..3 give the
/// symbol width (8, else 4-bit symbols packed low nibble first) and bits
/// 8..31 the output length; a tree-size byte and the tree follow, then the
/// bit stream as 32-bit words read from the top bit down. A node's bits 0..5
/// give the offset of its child pair, bit 7 marks the 0-child a leaf and bit
/// 6 the 1-child. A child address past the top of the address space ends
/// decoding.
fn huff_uncomp<B: Bus>(cpu: &Arm7tdmi, bus: &mut B)
    ensures
        crate::bus::extends(old(bus).events(), final(bus).events()),
        stored_output(old(bus).events(), final(bus).events(), cpu.r[1], true, 0),
        final(bus).clock() >= old(bus).clock(),
        old(bus).inv() ==> final(bus).inv(),
        final(bus).setup() == old(bus).setup(),
{
    let src = cpu.r[0];
    let dst = cpu.r[1];
    let ghost ev0 = bus.events();
    let header = bus.read32(src, Access::NonSeq);
    let ghost e1 = bus.events();
    assert(e1.subrange(0, ev0.len() as int) =~= ev0);
    let sym_bits = header & 0x0F;
    proof {
        crate::bits::lemma_u32_bits(header, 0);
    }
    let size = (header >> 8) as usize;
    let tree_base = src.wrapping_add(4);
    let ghost ev_t = bus.events();
    let tree_len = bus.read8(tree_base, Access::NonSeq) as u32;
    assert(bus.events().subrange(0, e1.len() as int) =~= ev_t.subrange(0, e1.len() as int));
    let mut stream = tree_base.wrapping_add((tree_len + 1) * 2);
    let mut out: Vec<u8> = Vec::new();
    let mut nibble_hi = false;
    let mut pending: u8 = 0;
    let mut word: u32 = 0;
    let mut bits_left: u32 = 0;
    let mut bad = false;
    while out.len() < size && !bad
        invariant
            out@.len() <= size,
            size == (header >> 8) as usize,
            size < 0x100_0000,
            nibble_hi ==> out@.len() < size,
            sym_bits == 8 ==> !nibble_hi,
            bits_left <= 32,
            bus.events().len() >= e1.len(),
            bus.events().subrange(0, e1.len() as int) == e1,
            bus.clock() >= old(bus).clock(),
            old(bus).inv() ==> bus.inv(),
            bus.setup() == old(bus).setup(),
        decreases 2 * size - 2 * out@.len() - (if nibble_hi { 1int } else { 0int }),
            if bad { 0int } else { 1int },
    {
        let ghost start_len = out@.len();
        let ghost start_nib = nibble_hi;
        let mut cur: u32 = tree_base.wrapping_add(1);
        let mut done = false;
        while !done && !bad
            invariant
                start_len < size,
                out@.len() <= size,
                size < 0x100_0000,
                nibble_hi ==> out@.len() < size,
                sym_bits == 8 ==> !nibble_hi,
                bits_left <= 32,
                !done ==> out@.len() == start_len && nibble_hi == start_nib,
                done ==> 2 * out@.len() + (if nibble_hi { 1int } else { 0int }) > 2 * start_len
                    + (if start_nib { 1int } else { 0int }),
                bus.events().len() >= e1.len(),
                bus.events().subrange(0, e1.len() as int) == e1,
                bus.clock() >= old(bus).clock(),
                old(bus).inv() ==> bus.inv(),
                bus.setup() == old(bus).setup(),
            decreases 0x1_0000_0000 - cur as int, if done || bad { 0int } else { 1int },
        {
            let ghost evb = bus.events();
            if bits_left == 0 {
                word = bus.read32(stream, Access::NonSeq);
                stream = stream.wrapping_add(4);
                bits_left = 32;
            }
            let bit = (word >> 31) & 1;
            proof {
                crate::bits::lemma_u32_bits(word >> 31, 1);
            }
            word = word << 1;
            bits_left = bits_left - 1;
            let node = bus.read8(cur, Access::NonSeq) as u32;
            proof {
                crate::bits::lemma_u32_bits(cur, 0);
                crate::bits::lemma_u32_bits(node, 0x3F);
            }
            let child_wide: u64 = (cur & !1u32) as u64 + ((node & 0x3F) * 2) as u64 + 2 + bit as u64;
            if child_wide > 0xFFFF_FFFF {
                bad = true;
            } else {
                let child = child_wide as u32;
                let leaf_flag: u32 = if bit == 0 { 0x80 } else { 0x40 };
                if node & leaf_flag != 0 {
                    let data = bus.read8(child, Access::NonSeq);
                    if sym_bits == 8 {
                        out.push(data);
                    } else if nibble_hi {
                        out.push(pending | ((data & 0xF) << 4));
                        nibble_hi = false;
                    } else {
                        pending = data & 0xF;
                        nibble_hi = true;
                    }
                    done = true;
                } else {
                    cur = child;
                }
            }
            assert(bus.events().subrange(0, e1.len() as int) =~= evb.subrange(0, e1.len() as int));
        }
    }
    let ghost mid = bus.events();
    write_out(bus, dst, &out, true);
    proof {
        assert(mid.subrange(0, ev0.len() as int) =~= e1.subrange(0, ev0.len() as int));
        assert(mid[ev0.len() as int] == e1[ev0.len() as int]);
        assert(bus.events() == mid + out_events(dst, out@, true));
        assert(bus.events().subrange(0, ev0.len() as int) =~= ev0);
    }
}


/// `x` is the integer square root of `v`.
pub open spec fn is_isqrt(v: u32, x: u32) -> bool {
    &&& (x as int) * (x as int) <= v
    &&& v < (x as int + 1) * (x as int + 1)
}

/// The IntrWait traffic: IME is set, then the CPU halts.
pub open spec fn intr_wait_events() -> Seq<BusEvent> {
    seq![write_event(Width::Half, 0x0400_0208, Access::NonSeq, 1), BusEvent::Halt { halted: true }]
}

/// SWI 0Ah ArcTan2 on the axes: with x and y the sign-extended low
/// halfwords of r0 and r1, the angle (0x10000 a full turn) is 0 along +x,
/// a quarter turn (0x4000) along +y, a half turn (0x8000) along -x and
/// three quarters (0xC000) along -y; any answer is below a full turn and
/// only r0 changes.
pub proof fn lemma_arctan2_axes(cpu: Arm7tdmi, after: Arm7tdmi)
    requires
        swi_cpu_effect(0x0A, cpu, after),
    ensures
        ({
            let x = (cpu.r[0] as i16) as i32;
            let y = (cpu.r[1] as i16) as i32;
            &&& after.r@ == cpu.r@.update(0, after.r[0])
            &&& after.r[0] < 0x1_0000
            &&& (y == 0 && x >= 0 ==> after.r[0] == 0)
            &&& (y == 0 && x < 0 ==> after.r[0] == 0x8000)
            &&& (x == 0 && y > 0 ==> after.r[0] == 0x4000)
            &&& (x == 0 && y < 0 ==> after.r[0] == 0xC000)
        }),
{
    let x = (cpu.r[0] as i16) as i32;
    let y = (cpu.r[1] as i16) as i32;
    let a = arctan2_spec(x, y);
    assert(after.r@ == cpu.r@.update(0, a));
    assert(after.r[0] == a);
    assert(0u32 & 0xFFFF == 0 && 0x4000u32 & 0xFFFF == 0x4000 && 0x8000u32 & 0xFFFF == 0x8000 && 0xC000u32 & 0xFFFF
        == 0xC000) by (bit_vector);
    assert(forall|v: u32| #[trigger] (v & 0xFFFF) < 0x1_0000) by {
        assert forall|v: u32| #[trigger] (v & 0xFFFF) < 0x1_0000 by {
            assert((v & 0xFFFF) < 0x1_0000) by (bit_vector);
        }
    }
}

/// What a high-level SWI call does to the CPU registers.
pub open spec fn swi_cpu_effect(num: u8, cpu: Arm7tdmi, after: Arm7tdmi) -> bool {
    if num == 0x00 {
        soft_reset_effect(cpu, after)
    } else if num == 0x05 {
        cpu.with_regs(after, cpu.r@.update(0, 1).update(1, 1))
    } else if num == 0x06 || num == 0x07 {
        div_applied(cpu, after, div_operands(cpu, num).0, div_operands(cpu, num).1)
    } else if num == 0x08 {
        &&& cpu.with_regs(after, cpu.r@.update(0, after.r[0]))
        &&& is_isqrt(cpu.r[0], after.r[0])
    } else if num == 0x09 {
        cpu.with_regs(after, cpu.r@.update(0, arctan_spec(((cpu.r[0] as i32) as i16) as i32) as u32))
    } else if num == 0x0A {
        cpu.with_regs(
            after,
            cpu.r@.update(0, arctan2_spec(((cpu.r[0] as i16) as i32), ((cpu.r[1] as i16) as i32))),
        )
    } else if num == 0x0D {
        cpu.with_regs(after, cpu.r@.update(0, 0xBAAE_187F))
    } else {
        after == cpu
    }
}

/// What a high-level SWI call does on the bus, from the events `ev0` before
/// the call to `ev1` after it.
pub open spec fn swi_bus_effect(num: u8, cpu: Arm7tdmi, ev0: Seq<BusEvent>, ev1: Seq<BusEvent>) -> bool {
    let ctl = cpu.r[2];
    if num == 0x01 {
        ev1 == ev0 + ram_reset_events(cpu.r[0])
    } else if num == 0x02 || num == 0x03 {
        ev1 == ev0.push(BusEvent::Halt { halted: true })
    } else if num == 0x04 || num == 0x05 {
        ev1 == ev0 + intr_wait_events()
    } else if num == 0x0B {
        if ctl & 0x0400_0000 != 0 {
            set_traffic(ev0, ev1, Width::Word, 4, cpu.r[0] & 0xFFFF_FFFC, cpu.r[1] & 0xFFFF_FFFC,
                (ctl & 0x000F_FFFF) as int, ctl & 0x0100_0000 != 0)
        } else {
            set_traffic(ev0, ev1, Width::Half, 2, cpu.r[0] & 0xFFFF_FFFE, cpu.r[1] & 0xFFFF_FFFE,
                (ctl & 0x000F_FFFF) as int, ctl & 0x0100_0000 != 0)
        }
    } else if num == 0x0C {
        set_traffic(ev0, ev1, Width::Word, 4, cpu.r[0] & 0xFFFF_FFFC, cpu.r[1] & 0xFFFF_FFFC,
            (((ctl & 0x000F_FFFF) + 7) / 8 * 8) as int, ctl & 0x0100_0000 != 0)
    } else if num == 0x10 {
        ev1.len() >= ev0.len() && ev1.subrange(0, ev0.len() as int) == ev0
    } else if num == 0x11 || num == 0x14 || num == 0x16 {
        stored_output(ev0, ev1, cpu.r[1], false, 0)
    } else if num == 0x12 || num == 0x13 || num == 0x15 || num == 0x17 {
        stored_output(ev0, ev1, cpu.r[1], true, 0)
    } else if num == 0x18 {
        stored_output(ev0, ev1, cpu.r[1], true, 1)
    } else {
        ev1 == ev0
    }
}

/// Perform BIOS call `num` at a high level. Returns `true` when the call
/// moved the PC (SoftReset), so the pipeline must be refilled.
pub fn swi<B: Bus>(cpu: &mut Arm7tdmi, bus: &mut B, num: u8) -> (branched: bool)
    ensures
        crate::bus::extends(old(bus).events(), final(bus).events()),
        branched == (num == 0),
        final(cpu).pipeline == old(cpu).pipeline,
        swi_cpu_effect(num, *old(cpu), *final(cpu)),
        swi_bus_effect(num, *old(cpu), old(bus).events(), final(bus).events()),
        final(bus).clock() >= old(bus).clock(),
        old(bus).inv() ==> final(bus).inv(),
        final(bus).setup() == old(bus).setup(),
{
    let ghost c0 = *cpu;
    let ghost ev0 = bus.events();
    if num == 0x00 {
        return soft_reset(cpu);
    } else if num == 0x01 {
        register_ram_reset(cpu, bus);
    } else if num == 0x02 || num == 0x03 {
        bus.set_halted(true);
    } else if num == 0x04 {
        intr_wait(bus);
        assert(bus.events() =~= ev0 + intr_wait_events());
    } else if num == 0x05 {
        cpu.r[0] = 1;
        cpu.r[1] = 1;
        assert(cpu.r@ =~= c0.r@.update(0, 1).update(1, 1));
        intr_wait(bus);
        assert(bus.events() =~= ev0 + intr_wait_events());
    } else if num == 0x06 || num == 0x07 {
        patch_div_call(cpu, num);
    } else if num == 0x08 {
        let x = isqrt(cpu.r[0]);
        cpu.r[0] = x;
        assert(cpu.r@ =~= c0.r@.update(0, x));
    } else if num == 0x09 {
        let v = arctan(cpu.r[0] as i32 as i16 as i32) as u32;
        cpu.r[0] = v;
        assert(cpu.r@ =~= c0.r@.update(0, v));
    } else if num == 0x0A {
        let v = arctan2(cpu.r[0] as i16 as i32, cpu.r[1] as i16 as i32);
        cpu.r[0] = v;
        assert(cpu.r@ =~= c0.r@.update(0, v));
    } else if num == 0x0B {
        cpu_set(cpu, bus);
    } else if num == 0x0C {
        cpu_fast_set(cpu, bus);
    } else if num == 0x0D {
        cpu.r[0] = 0xBAAE_187F;
        assert(cpu.r@ =~= c0.r@.update(0, 0xBAAE_187F));
    } else if num == 0x10 {
        bit_unpack(cpu, bus);
    } else if num == 0x11 || num == 0x12 {
        lz77_uncomp(cpu, bus, num == 0x12);
    } else if num == 0x13 {
        huff_uncomp(cpu, bus);
    } else if num == 0x14 || num == 0x15 {
        rl_uncomp(cpu, bus, num == 0x15);
    } else if num == 0x16 || num == 0x17 {
        diff8_unfilter(cpu, bus, num == 0x17);
    } else if num == 0x18 {
        diff16_unfilter(cpu, bus);
    }
    false
}

/// Div and DivArm on the operands that `num` selects.
fn patch_div_call(cpu: &mut Arm7tdmi, num: u8)
    requires
        num == 6 || num == 7,
    ensures
        div_applied(*old(cpu), *final(cpu), div_operands(*old(cpu), num).0, div_operands(*old(cpu), num).1),
{
    let (number, denom) = if num == 6 {
        (cpu.r[0] as i32, cpu.r[1] as i32)
    } else {
        (cpu.r[1] as i32, cpu.r[0] as i32)
    };
    div(cpu, number, denom);
}

} // verus!
