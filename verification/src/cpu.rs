//! The ARM7TDMI: an ARMv4T core with a 3-stage pipeline and two instruction
//! sets (32-bit ARM, 16-bit Thumb), with full register banking.
//!
//! `pipeline[0]` is the instruction to execute now, `pipeline[1]` the next one,
//! already fetched; `r[15]` holds the address of the word to be fetched next,
//! which is why an executing ARM instruction sees R15 as its own address + 8.

pub mod arm;
pub mod barrel;
pub mod hle;
pub mod psr;
pub mod thumb;

use vstd::prelude::*;
use crate::bus::{Access, Bus, BusEvent, Width, read_event};
use psr::{Cond, Flags, flags_of, cond_of};
use crate::state::{Reader, Writer, le32, from_le32, words_le, decode_words, put_words, get_words};

verus! {

pub const SP: usize = 13;
pub const LR: usize = 14;
pub const PC: usize = 15;

/// The r13/r14 bank class of a mode: User/System share 0; FIQ = 1,
/// Supervisor = 2, Abort = 3, IRQ = 4, Undefined = 5.
pub open spec fn bank_class_spec(mode: u32) -> usize {
    let m = mode & 0x1F;
    if m == 0x11 {
        1
    } else if m == 0x13 {
        2
    } else if m == 0x17 {
        3
    } else if m == 0x12 {
        4
    } else if m == 0x1B {
        5
    } else {
        0
    }
}

/// Whether a mode is FIQ, the only mode that banks r8..r12.
pub open spec fn is_fiq(mode: u32) -> bool {
    mode & 0x1F == 0x11
}

/// The r8..r12 bank of a mode: 1 for FIQ, 0 for every other mode.
pub open spec fn fiq_bank(mode: u32) -> usize {
    if is_fiq(mode) { 1 } else { 0 }
}

/// Whether register `i` is the same physical register in modes `m1` and `m2`.
pub open spec fn same_register(m1: u32, m2: u32, i: int) -> bool {
    if 8 <= i <= 12 {
        is_fiq(m1) == is_fiq(m2)
    } else if i == 13 || i == 14 {
        bank_class_spec(m1) == bank_class_spec(m2)
    } else {
        true
    }
}

/// Whether a mode has a saved PSR: every mode code but User's (0x10) and
/// System's (0x1F), the undefined codes included (their SPSR reads as 0 and
/// takes no writes).
pub open spec fn has_spsr_mode(mode: u32) -> bool {
    mode & 0x1F != 0x10 && mode & 0x1F != 0x1F
}

/// Index into the SPSR bank of a mode with an SPSR.
pub open spec fn spsr_index(mode: u32) -> Option<int> {
    let m = mode & 0x1F;
    if m == 0x11 {
        Some(0)
    } else if m == 0x13 {
        Some(1)
    } else if m == 0x17 {
        Some(2)
    } else if m == 0x12 {
        Some(3)
    } else if m == 0x1B {
        Some(4)
    } else {
        None
    }
}

proof fn lemma_user_mode_code()
    ensures
        0x10u32 & 0x1F == 0x10,
        bank_class_spec(0x10) == 0,
        !is_fiq(0x10),
{
    crate::bits::lemma_mode_field(0x10);
}

fn bank_class(mode: u32) -> (c: usize)
    ensures
        c == bank_class_spec(mode),
        c < 6,
{
    match mode & 0x1F {
        0x11 => 1,
        0x13 => 2,
        0x17 => 3,
        0x12 => 4,
        0x1B => 5,
        _ => 0,
    }
}

/// The ARM7TDMI register/status state.
///
/// `r` holds the active view r0..r15. The r8..r14 that a mode banks away are
/// kept in the save areas and swapped by [`Arm7tdmi::write_cpsr`].
pub struct Arm7tdmi {
    /// The 16 currently visible registers.
    pub r: [u32; 16],
    /// Current Program Status Register.
    pub cpsr: u32,
    /// The two prefetched pipeline words: [execute slot, fetch slot].
    pub pipeline: [u32; 2],
    /// When set, SWIs are emulated directly instead of vectoring to 0x08.
    pub hle_bios: bool,
    /// Saved r8..r12: bank 0 (every non-FIQ mode) at 0..5, FIQ at 5..10.
    pub r8_12: [u32; 10],
    /// Saved r13/r14 per bank class `c` at `2c`, `2c + 1`.
    pub r13_14: [u32; 12],
    /// SPSRs for [FIQ, Supervisor, Abort, IRQ, Undefined].
    pub spsr_bank: [u32; 5],
}

impl Arm7tdmi {
    /// Register `i` as seen from `mode`, whatever the current mode is.
    pub open spec fn reg_in_mode(self, mode: u32, i: int) -> u32 {
        let cur = self.cpsr;
        if 8 <= i <= 12 {
            if is_fiq(mode) == is_fiq(cur) {
                self.r[i]
            } else {
                self.r8_12[fiq_bank(mode) * 5 + (i - 8)]
            }
        } else if i == 13 || i == 14 {
            if bank_class_spec(mode) == bank_class_spec(cur) {
                self.r[i]
            } else {
                self.r13_14[bank_class_spec(mode) * 2 + (i - 13)]
            }
        } else {
            self.r[i]
        }
    }

    /// The SPSR of `mode` (0 for User/System, which have none).
    pub open spec fn spsr_of(self, mode: u32) -> u32 {
        match spsr_index(mode) {
            Some(k) => self.spsr_bank[k],
            None => 0,
        }
    }

    /// The active view is the register file of the current mode.
    pub proof fn lemma_active_view(self, i: int)
        requires
            0 <= i < 16,
        ensures
            self.reg_in_mode(self.cpsr, i) == self.r[i],
    {
    }

    /// Every register and SPSR of every mode, and the pipeline, agree.
    pub open spec fn same_banked_state(self, other: Arm7tdmi) -> bool {
        &&& forall|m: u32, i: int| 0 <= i < 16 ==> #[trigger] self.reg_in_mode(m, i) == other.reg_in_mode(m, i)
        &&& forall|m: u32| #[trigger] self.spsr_of(m) == other.spsr_of(m)
    }

    pub open spec fn initial(self) -> bool {
        &&& forall|i: int| 0 <= i < 16 ==> self.r[i] == 0
        &&& self.cpsr == 0x1F
        &&& self.pipeline[0] == 0 && self.pipeline[1] == 0
        &&& !self.hle_bios
        &&& forall|m: u32, i: int| 0 <= i < 16 ==> #[trigger] self.reg_in_mode(m, i) == 0
        &&& forall|m: u32| #[trigger] self.spsr_of(m) == 0
    }

    /// A powered-on core in System mode with every register zero.
    pub fn new() -> (cpu: Self)
        ensures
            cpu.initial(),
    {
        Arm7tdmi {
            r: [0; 16],
            cpsr: 0x1F,
            pipeline: [0; 2],
            hle_bios: false,
            r8_12: [0; 10],
            r13_14: [0; 12],
            spsr_bank: [0; 5],
        }
    }

    /// The C flag.
    pub fn carry(&self) -> (c: bool)
        ensures
            c == (self.cpsr & 0x2000_0000 != 0),
    {
        self.cpsr & 0x2000_0000 != 0
    }

    /// Whether the T (Thumb) bit is set.
    pub fn thumb(&self) -> (t: bool)
        ensures
            t == (self.cpsr & 0x20 != 0),
    {
        self.cpsr & 0x20 != 0
    }

    /// Whether the current mode has a saved PSR (User and System do not).
    pub fn has_spsr(&self) -> (b: bool)
        ensures
            b == has_spsr_mode(self.cpsr),
    {
        let m = self.cpsr & 0x1F;
        !(m == 0x10 || m == 0x1F)
    }

    /// Register `i` as seen from User mode, whatever the current mode.
    pub fn user_reg(&self, i: usize) -> (v: u32)
        requires
            i < 16,
        ensures
            v == self.reg_in_mode(0x10, i as int),
    {
        proof {
            lemma_user_mode_code();
        }
        if 8 <= i && i <= 12 && self.cpsr & 0x1F == 0x11 {
            self.r8_12[i - 8]
        } else if (i == 13 || i == 14) && bank_class(self.cpsr) != 0 {
            self.r13_14[i - 13]
        } else {
            self.r[i]
        }
    }

    /// Write register `i` of the User bank.
    pub fn set_user_reg(&mut self, i: usize, v: u32)
        requires
            i < 16,
        ensures
            final(self).cpsr == old(self).cpsr,
            final(self).pipeline == old(self).pipeline,
            final(self).hle_bios == old(self).hle_bios,
            final(self).spsr_bank == old(self).spsr_bank,
            forall|m: u32| #[trigger] final(self).spsr_of(m) == old(self).spsr_of(m),
            forall|m: u32, j: int|
                0 <= j < 16 ==> #[trigger] final(self).reg_in_mode(m, j) == if j == i && same_register(
                    m,
                    0x10,
                    j,
                ) {
                    v
                } else {
                    old(self).reg_in_mode(m, j)
                },
    {
        proof {
            lemma_user_mode_code();
        }
        if 8 <= i && i <= 12 && self.cpsr & 0x1F == 0x11 {
            self.r8_12[i - 8] = v;
        } else if (i == 13 || i == 14) && bank_class(self.cpsr) != 0 {
            self.r13_14[i - 13] = v;
        } else {
            self.r[i] = v;
        }
    }

    /// The SPSR of the current mode (0 in User/System).
    pub fn current_spsr(&self) -> (v: u32)
        ensures
            v == self.spsr_of(self.cpsr),
    {
        match self.cpsr & 0x1F {
            0x11 => self.spsr_bank[0],
            0x13 => self.spsr_bank[1],
            0x17 => self.spsr_bank[2],
            0x12 => self.spsr_bank[3],
            0x1B => self.spsr_bank[4],
            _ => 0,
        }
    }

    /// Write the current mode's SPSR (no effect in User/System).
    pub fn set_current_spsr(&mut self, v: u32)
        ensures
            old(self).spsr_set(*final(self), v),
            spsr_index(old(self).cpsr) is None ==> *final(self) == *old(self),
    {
        match self.cpsr & 0x1F {
            0x11 => self.spsr_bank[0] = v,
            0x13 => self.spsr_bank[1] = v,
            0x17 => self.spsr_bank[2] = v,
            0x12 => self.spsr_bank[3] = v,
            0x1B => self.spsr_bank[4] = v,
            _ => {},
        }
    }

    /// Write CPSR (forcing mode bit 4, which every valid mode has), banking
    /// r8..r14 out and in when the mode changes. No mode's registers change:
    /// only which bank is visible does.
    pub fn write_cpsr(&mut self, new: u32)
        ensures
            old(self).switched(*final(self), new),
            forall|m: u32, j: int| 0 <= j < 16 ==> #[trigger] final(self).reg_in_mode(m, j) == old(self).reg_in_mode(m, j),
    {
        let new = new | 0x10;
        let old_mode = self.cpsr & 0x1F;
        let new_mode = new & 0x1F;
        if old_mode != new_mode {
            self.save_bank(old_mode);
            self.cpsr = new;
            self.load_bank(new_mode);
        } else {
            self.cpsr = new;
        }
        proof {
            crate::bits::lemma_mode_mask_idempotent();
        }
    }

    /// Copy the active r8..r14 into `mode`'s save areas.
    fn save_bank(&mut self, mode: u32)
        ensures
            final(self).r == old(self).r,
            final(self).cpsr == old(self).cpsr,
            final(self).pipeline == old(self).pipeline,
            final(self).hle_bios == old(self).hle_bios,
            final(self).spsr_bank == old(self).spsr_bank,
            forall|j: int| 8 <= j < 13 ==> #[trigger] old(self).r[j] == final(self).r8_12[fiq_bank(mode) * 5 + j - 8],
            forall|k: int| 0 <= k < 10 && k / 5 != fiq_bank(mode) ==> final(self).r8_12[k] == old(self).r8_12[k],
            final(self).r13_14[bank_class_spec(mode) * 2] == old(self).r[13],
            final(self).r13_14[bank_class_spec(mode) * 2 + 1] == old(self).r[14],
            forall|k: int| 0 <= k < 12 && k / 2 != bank_class_spec(mode) ==> final(self).r13_14[k] == old(self).r13_14[k],
    {
        let g: usize = if mode & 0x1F == 0x11 { 5 } else { 0 };
        let mut k: usize = 0;
        while k < 5
            invariant
                k <= 5,
                g == fiq_bank(mode) * 5,
                self.r == old(self).r,
                self.cpsr == old(self).cpsr,
                self.pipeline == old(self).pipeline,
                self.hle_bios == old(self).hle_bios,
                self.spsr_bank == old(self).spsr_bank,
                self.r13_14 == old(self).r13_14,
                forall|j: int| g <= j < g + k ==> #[trigger] self.r8_12[j] == old(self).r[8 + j - g],
                forall|j: int| 0 <= j < 10 && !(g <= j < g + k) ==> self.r8_12[j] == old(self).r8_12[j],
            decreases 5 - k,
        {
            self.r8_12[g + k] = self.r[8 + k];
            k = k + 1;
        }
        let c = bank_class(mode);
        self.r13_14[2 * c] = self.r[13];
        self.r13_14[2 * c + 1] = self.r[14];
    }

    /// Load `mode`'s banked r8..r14 into the active view.
    fn load_bank(&mut self, mode: u32)
        ensures
            final(self).r8_12 == old(self).r8_12,
            final(self).r13_14 == old(self).r13_14,
            final(self).cpsr == old(self).cpsr,
            final(self).pipeline == old(self).pipeline,
            final(self).hle_bios == old(self).hle_bios,
            final(self).spsr_bank == old(self).spsr_bank,
            forall|i: int| (0 <= i < 8 || i == 15) ==> final(self).r[i] == old(self).r[i],
            forall|j: int| 8 <= j < 13 ==> #[trigger] final(self).r[j] == old(self).r8_12[fiq_bank(mode) * 5 + j - 8],
            final(self).r[13] == old(self).r13_14[bank_class_spec(mode) * 2],
            final(self).r[14] == old(self).r13_14[bank_class_spec(mode) * 2 + 1],
    {
        let g: usize = if mode & 0x1F == 0x11 { 5 } else { 0 };
        let mut k: usize = 0;
        while k < 5
            invariant
                k <= 5,
                g == fiq_bank(mode) * 5,
                self.r8_12 == old(self).r8_12,
                self.r13_14 == old(self).r13_14,
                self.cpsr == old(self).cpsr,
                self.pipeline == old(self).pipeline,
                self.hle_bios == old(self).hle_bios,
                self.spsr_bank == old(self).spsr_bank,
                forall|j: int| 8 <= j < 8 + k ==> #[trigger] self.r[j] == old(self).r8_12[g + j - 8],
                forall|j: int| 0 <= j < 16 && !(8 <= j < 8 + k) ==> self.r[j] == old(self).r[j],
            decreases 5 - k,
        {
            self.r[8 + k] = self.r8_12[g + k];
            k = k + 1;
        }
        let c = bank_class(mode);
        self.r[13] = self.r13_14[2 * c];
        self.r[14] = self.r13_14[2 * c + 1];
    }

    /// Whether an instruction with condition `cond` executes now.
    pub fn cond_passes(&self, cond: Cond) -> (b: bool)
        ensures
            b == flags_of(self.cpsr).holds(cond),
    {
        Flags::from_cpsr(self.cpsr).eval(cond)
    }

    /// Whether IRQs are enabled on the CPU (the CPSR I bit is clear).
    pub fn irq_ready(&self) -> (b: bool)
        ensures
            b == (self.cpsr & 0x80 == 0),
    {
        self.cpsr & 0x80 == 0
    }
}

impl Arm7tdmi {
    /// `after` differs from `self` at most in the visible registers.
    pub open spec fn only_regs_changed(self, after: Arm7tdmi) -> bool {
        &&& after.cpsr == self.cpsr
        &&& after.pipeline == self.pipeline
        &&& after.hle_bios == self.hle_bios
        &&& after.r8_12 == self.r8_12
        &&& after.r13_14 == self.r13_14
        &&& after.spsr_bank == self.spsr_bank
    }

    /// `after` is `self` with its visible registers replaced by `regs`.
    pub open spec fn with_regs(self, after: Arm7tdmi, regs: Seq<u32>) -> bool {
        &&& self.only_regs_changed(after)
        &&& after.r@ == regs
    }

    /// `after` is `self` with only the CPSR word replaced by `cpsr`.
    pub open spec fn with_cpsr_word(self, after: Arm7tdmi, cpsr: u32) -> bool {
        &&& after.r == self.r
        &&& after.cpsr == cpsr
        &&& after.pipeline == self.pipeline
        &&& after.hle_bios == self.hle_bios
        &&& after.r8_12 == self.r8_12
        &&& after.r13_14 == self.r13_14
        &&& after.spsr_bank == self.spsr_bank
    }

    /// `after` is the effect of [`Arm7tdmi::write_cpsr`] with `new` on `self`,
    /// followed by setting R15 to `pc`.
    pub open spec fn switched_then_pc(self, after: Arm7tdmi, new: u32, pc: u32) -> bool {
        &&& after.cpsr == new | 0x10
        &&& after.pipeline == self.pipeline
        &&& after.hle_bios == self.hle_bios
        &&& forall|i: int| 0 <= i < 8 ==> after.r[i] == self.r[i]
        &&& after.r[15] == pc
        &&& forall|m: u32, j: int| 0 <= j < 15 ==> #[trigger] after.reg_in_mode(m, j) == self.reg_in_mode(m, j)
        &&& forall|m: u32| #[trigger] after.spsr_of(m) == self.spsr_of(m)
    }

    /// `after` is the effect of [`Arm7tdmi::write_cpsr`] with `new` on `self`.
    pub open spec fn switched(self, after: Arm7tdmi, new: u32) -> bool {
        self.switched_then_pc(after, new, self.r[15])
    }

    /// `after` is `self` with the current mode's SPSR (if it has one) set to `v`.
    pub open spec fn spsr_set(self, after: Arm7tdmi, v: u32) -> bool {
        &&& after.r == self.r
        &&& after.cpsr == self.cpsr
        &&& after.pipeline == self.pipeline
        &&& after.hle_bios == self.hle_bios
        &&& forall|m: u32, j: int| 0 <= j < 16 ==> #[trigger] after.reg_in_mode(m, j) == self.reg_in_mode(m, j)
        &&& forall|m: u32|
            #[trigger] after.spsr_of(m) == if spsr_index(m) is Some && spsr_index(m) == spsr_index(self.cpsr) {
                v
            } else {
                self.spsr_of(m)
            }
    }

    /// `after` is `self` with its visible registers replaced by `regs` and its
    /// CPSR word by `cpsr`.
    pub open spec fn with_regs_cpsr(self, after: Arm7tdmi, regs: Seq<u32>, cpsr: u32) -> bool {
        &&& after.r@ == regs
        &&& after.cpsr == cpsr
        &&& after.pipeline == self.pipeline
        &&& after.hle_bios == self.hle_bios
        &&& after.r8_12 == self.r8_12
        &&& after.r13_14 == self.r13_14
        &&& after.spsr_bank == self.spsr_bank
    }

    /// The value an instruction reads from register `i` when R15 reads
    /// `extra` bytes further ahead than the register holds.
    pub open spec fn read_reg(self, i: int, extra: u32) -> u32 {
        if i == 15 {
            self.r[15].wrapping_add(extra)
        } else {
            self.r[i]
        }
    }
}

/// The PSR word after an ALU result sets N and Z, C, and (unless the operation
/// is logical) V.
pub open spec fn set_flags_word(cpsr: u32, result: u32, carry: bool, overflow: bool, logical: bool) -> u32 {
    let f = flags_of(cpsr);
    psr::with_flags(
        Flags {
            n: result & 0x8000_0000 != 0,
            z: result == 0,
            c: carry,
            v: if logical { f.v } else { overflow },
        },
        cpsr,
    )
}

/// The PSR word after a result sets only N and Z.
pub open spec fn set_nz_word(cpsr: u32, result: u32) -> u32 {
    let f = flags_of(cpsr);
    psr::with_flags(Flags { n: result & 0x8000_0000 != 0, z: result == 0, c: f.c, v: f.v }, cpsr)
}

/// Set N and Z from `result`, C from `carry` and, unless `logical`, V from
/// `overflow`.
pub fn set_flags(cpu: &mut Arm7tdmi, result: u32, carry: bool, overflow: bool, logical: bool)
    ensures
        old(cpu).with_cpsr_word(*final(cpu), set_flags_word(old(cpu).cpsr, result, carry, overflow, logical)),
{
    let mut f = Flags::from_cpsr(cpu.cpsr);
    f.n = result & 0x8000_0000 != 0;
    f.z = result == 0;
    f.c = carry;
    if !logical {
        f.v = overflow;
    }
    cpu.cpsr = f.to_cpsr(cpu.cpsr);
}

/// Set N and Z from `result`, leaving C and V.
pub fn set_nz(cpu: &mut Arm7tdmi, result: u32)
    ensures
        old(cpu).with_cpsr_word(*final(cpu), set_nz_word(old(cpu).cpsr, result)),
{
    let mut f = Flags::from_cpsr(cpu.cpsr);
    f.n = result & 0x8000_0000 != 0;
    f.z = result == 0;
    cpu.cpsr = f.to_cpsr(cpu.cpsr);
}

/// The 4-bit register field of `op` at bit `shift`.
pub fn reg_field(op: u32, shift: u32) -> (r: usize)
    requires
        shift < 32,
    ensures
        r < 16,
        r as int == ((op >> shift) & 0xF) as int,
{
    let f = (op >> shift) & 0xF;
    proof {
        crate::bits::lemma_u32_bits(op >> shift, 0xF);
    }
    f as usize
}

/// The 3-bit (Thumb low) register field of `op` at bit `shift`.
pub fn low_reg_field(op: u32, shift: u32) -> (r: usize)
    requires
        shift < 32,
    ensures
        r < 8,
        r as int == ((op >> shift) & 7) as int,
{
    let f = (op >> shift) & 7;
    proof {
        crate::bits::lemma_u32_bits(op >> shift, 7);
    }
    f as usize
}

/// `a + b + carry_in` as `(result, carry_out, signed_overflow)`.
pub open spec fn addc_spec(a: u32, b: u32, carry_in: bool) -> (u32, bool, bool) {
    let sum = a as int + b as int + if carry_in { 1int } else { 0int };
    let r = (sum % 0x1_0000_0000) as u32;
    (r, sum > 0xFFFF_FFFF, (!(a ^ b) & (a ^ r)) & 0x8000_0000 != 0)
}

/// `a + b + carry_in` with ARM carry and overflow; subtraction is `a + !b + 1`.
pub fn addc(a: u32, b: u32, carry_in: bool) -> (r: (u32, bool, bool))
    ensures
        r == addc_spec(a, b, carry_in),
{
    let sum: u64 = a as u64 + b as u64 + if carry_in { 1u64 } else { 0u64 };
    let r = (sum & 0xFFFF_FFFF) as u32;
    proof {
        crate::bits::lemma_u64_bits(sum);
    }
    let carry = sum > 0xFFFF_FFFF;
    let overflow = (!(a ^ b) & (a ^ r)) & 0x8000_0000 != 0;
    (r, carry, overflow)
}

/// The CPSR on entry to an exception taken into `mode`: ARM state, IRQs
/// masked, FIQ mask and flags kept.
pub open spec fn exception_cpsr(cpsr: u32, mode: u32) -> u32 {
    (cpsr & 0xFFFF_FFC0) | mode | 0x80
}

impl Arm7tdmi {
    /// `after` is `self` having entered an exception in `mode`: the CPSR as
    /// [`exception_cpsr`] gives it, the old CPSR in the new mode's SPSR, `ret`
    /// in the new mode's LR and R15 at `vector`; no other register of any
    /// mode and no other SPSR changes.
    pub open spec fn entered_exception(self, after: Arm7tdmi, mode: u32, ret: u32, vector: u32) -> bool {
        let new = exception_cpsr(self.cpsr, mode);
        &&& after.cpsr == new
        &&& after.pipeline == self.pipeline
        &&& after.hle_bios == self.hle_bios
        &&& after.r[14] == ret
        &&& after.r[15] == vector
        &&& forall|m: u32, j: int|
            0 <= j < 15 && !(j == 14 && same_register(m, new, 14)) ==> #[trigger] after.reg_in_mode(m, j)
                == self.reg_in_mode(m, j)
        &&& forall|m: u32|
            #[trigger] after.spsr_of(m) == if spsr_index(m) is Some && spsr_index(m) == spsr_index(new) {
                self.cpsr
            } else {
                self.spsr_of(m)
            }
    }

    /// Enter an exception in `mode` (Supervisor or IRQ), returning to `ret`,
    /// at `vector`.
    pub fn enter_exception(&mut self, mode: u32, ret: u32, vector: u32)
        requires
            mode == 0x12 || mode == 0x13,
        ensures
            old(self).entered_exception(*final(self), mode, ret, vector),
    {
        let old_cpsr = self.cpsr;
        let new = (old_cpsr & 0xFFFF_FFC0) | mode | 0x80;
        proof {
            crate::bits::lemma_mode_field(old_cpsr);
        }
        self.write_cpsr(new);
        let ghost w = *self;
        self.set_current_spsr(old_cpsr);
        let ghost sp = *self;
        self.r[14] = ret;
        self.r[15] = vector;
        proof {
            assert forall|m: u32, j: int|
                0 <= j < 15 && !(j == 14 && same_register(m, new, 14)) implies #[trigger] self.reg_in_mode(m, j)
                    == old(self).reg_in_mode(m, j) by {
                assert(self.reg_in_mode(m, j) == sp.reg_in_mode(m, j));
                assert(sp.reg_in_mode(m, j) == w.reg_in_mode(m, j));
            }
            assert forall|m: u32|
                #[trigger] self.spsr_of(m) == if spsr_index(m) is Some && spsr_index(m) == spsr_index(new) {
                    old(self).cpsr
                } else {
                    old(self).spsr_of(m)
                } by {
                assert(self.spsr_of(m) == sp.spsr_of(m));
                assert(w.spsr_of(m) == old(self).spsr_of(m));
            }
        }
    }
}

impl Arm7tdmi {
    /// The save-state image of the core: r0..r15, CPSR, the pipeline, the
    /// BIOS flag byte, then the banked registers and the SPSRs.
    pub open spec fn state_bytes(self) -> Seq<u8> {
        words_le(self.r@) + le32(self.cpsr) + le32(self.pipeline[0]) + le32(self.pipeline[1]) + seq![
            if self.hle_bios { 1u8 } else { 0u8 },
        ] + words_le(self.r8_12@) + words_le(self.r13_14@) + words_le(self.spsr_bank@)
    }

    /// `self` is what [`Arm7tdmi::deserialize`] reads from the image `s`.
    pub open spec fn decoded_from(self, s: Seq<u8>) -> bool {
        &&& self.r@ == decode_words(s.subrange(0, 64), 16)
        &&& self.cpsr == from_le32(s.subrange(64, 68))
        &&& self.pipeline[0] == from_le32(s.subrange(68, 72))
        &&& self.pipeline[1] == from_le32(s.subrange(72, 76))
        &&& self.hle_bios == (s[76] != 0)
        &&& self.r8_12@ == decode_words(s.subrange(77, 117), 10)
        &&& self.r13_14@ == decode_words(s.subrange(117, 165), 12)
        &&& self.spsr_bank@ == decode_words(s.subrange(165, 185), 5)
    }

    /// Append the save-state image of the core.
    pub fn serialize(&self, w: &mut Writer)
        ensures
            final(w).buf@ == old(w).buf@ + self.state_bytes(),
    {
        put_words(w, &self.r);
        w.u32(self.cpsr);
        w.u32(self.pipeline[0]);
        w.u32(self.pipeline[1]);
        w.bool(self.hle_bios);
        put_words(w, &self.r8_12);
        put_words(w, &self.r13_14);
        put_words(w, &self.spsr_bank);
        assert(w.buf@ =~= old(w).buf@ + self.state_bytes());
    }

    /// Read the core back from a save-state image. A short buffer fails the
    /// reader.
    pub fn deserialize(&mut self, r: &mut Reader)
        ensures
            final(r).buf@ == old(r).buf@,
            old(r).has(185) ==> {
                &&& final(r).pos == old(r).pos + 185
                &&& final(r).failed == old(r).failed
                &&& final(self).decoded_from(old(r).next_bytes(185))
            },
            !old(r).has(185) ==> final(r).failed,
    {
        let ghost s = old(r).next_bytes(185);
        let ghost p0 = r.pos as int;
        get_words(r, &mut self.r);
        let ghost r1 = *r;
        self.cpsr = r.u32();
        let ghost r2 = *r;
        self.pipeline[0] = r.u32();
        let ghost r3 = *r;
        self.pipeline[1] = r.u32();
        let ghost r4 = *r;
        self.hle_bios = r.bool();
        let ghost r5 = *r;
        get_words(r, &mut self.r8_12);
        let ghost r6 = *r;
        get_words(r, &mut self.r13_14);
        let ghost r7 = *r;
        get_words(r, &mut self.spsr_bank);
        proof {
            if old(r).has(185) {
                assert(old(r).next_bytes(64) =~= s.subrange(0, 64));
                assert(r1.next_bytes(4) =~= s.subrange(64, 68));
                assert(r2.next_bytes(4) =~= s.subrange(68, 72));
                assert(r3.next_bytes(4) =~= s.subrange(72, 76));
                assert(r4.buf@[r4.pos as int] == s[76]);
                assert(r5.next_bytes(40) =~= s.subrange(77, 117));
                assert(r6.next_bytes(48) =~= s.subrange(117, 165));
                assert(r7.next_bytes(20) =~= s.subrange(165, 185));
            }
        }
    }
}

/// Reading back a written image restores the core exactly.
pub proof fn lemma_state_roundtrip(cpu: Arm7tdmi, back: Arm7tdmi)
    requires
        back.decoded_from(cpu.state_bytes()),
    ensures
        back == cpu,
{
    let s = cpu.state_bytes();
    crate::state::lemma_words_roundtrip(cpu.r@);
    crate::state::lemma_words_roundtrip(cpu.r8_12@);
    crate::state::lemma_words_roundtrip(cpu.r13_14@);
    crate::state::lemma_words_roundtrip(cpu.spsr_bank@);
    crate::state::lemma_le32_roundtrip(cpu.cpsr);
    crate::state::lemma_le32_roundtrip(cpu.pipeline[0]);
    crate::state::lemma_le32_roundtrip(cpu.pipeline[1]);
    assert(s.subrange(0, 64) =~= words_le(cpu.r@));
    assert(s.subrange(64, 68) =~= le32(cpu.cpsr));
    assert(s.subrange(68, 72) =~= le32(cpu.pipeline[0]));
    assert(s.subrange(72, 76) =~= le32(cpu.pipeline[1]));
    assert(s.subrange(77, 117) =~= words_le(cpu.r8_12@));
    assert(s.subrange(117, 165) =~= words_le(cpu.r13_14@));
    assert(s.subrange(165, 185) =~= words_le(cpu.spsr_bank@));
    assert(back.r =~= cpu.r);
    assert(back.pipeline =~= cpu.pipeline);
    assert(back.r8_12 =~= cpu.r8_12);
    assert(back.r13_14 =~= cpu.r13_14);
    assert(back.spsr_bank =~= cpu.spsr_bank);
}

/// `s` with R15 set to `pc` and the pipeline set back to `pipeline`.
pub open spec fn with_pc_pipeline(s: Arm7tdmi, pc: u32, pipeline: [u32; 2]) -> Arm7tdmi {
    Arm7tdmi { r: vstd::array::spec_array_update(s.r, 15, pc), pipeline, ..s }
}

/// The effect of an instruction, in ARM or Thumb state, that the pipeline
/// presents as `op`; an ARM instruction whose condition fails does nothing.
pub open spec fn executed(
    cpu: Arm7tdmi,
    op: u32,
    after: Arm7tdmi,
    ev0: Seq<BusEvent>,
    ev1: Seq<BusEvent>,
    branched: bool,
) -> bool {
    if cpu.cpsr & 0x20 != 0 {
        thumb::thumb_execute_effect(cpu, op & 0xFFFF, after, ev0, ev1, branched)
    } else if flags_of(cpu.cpsr).holds(cond_of(op >> 28)) {
        arm::execute_effect(cpu, op, after, ev0, ev1, branched)
    } else {
        !branched && after == cpu && ev1 == ev0
    }
}

impl Arm7tdmi {
    /// `after` is `self` with the pipeline refilled from R15 (two fetches,
    /// aligned to the instruction width of the current state), R15 then
    /// two instructions ahead.
    pub open spec fn refilled(self, after: Arm7tdmi, ev0: Seq<BusEvent>, ev1: Seq<BusEvent>) -> bool {
        let target = self.r[15];
        let thumb = self.cpsr & 0x20 != 0;
        let a = if thumb { target & 0xFFFF_FFFE } else { target & 0xFFFF_FFFC };
        let step: u32 = if thumb { 2 } else { 4 };
        let width = if thumb { Width::Half } else { Width::Word };
        let v0 = crate::bus::event_value(ev1[ev0.len() as int]);
        let v1 = crate::bus::event_value(ev1[ev0.len() as int + 1]);
        &&& ev1 == ev0.push(read_event(width, a, Access::NonSeq, v0)).push(
            read_event(width, a.wrapping_add(step), Access::Sequential, v1),
        )
        &&& after.pipeline[0] == v0
        &&& after.pipeline[1] == v1
        &&& after.r@ == self.r@.update(15, target.wrapping_add(if thumb { 4u32 } else { 8u32 }))
        &&& after.cpsr == self.cpsr
        &&& after.hle_bios == self.hle_bios
        &&& after.r8_12 == self.r8_12
        &&& after.r13_14 == self.r13_14
        &&& after.spsr_bank == self.spsr_bank
    }

    /// One step: the next instruction is fetched (sequentially, at R15), the
    /// instruction in `pipeline[0]` executes, and then either a branch
    /// refills the pipeline or the pipeline shifts in the fetched word and
    /// R15 advances (unless the instruction moved it without branching).
    pub open spec fn stepped(self, after: Arm7tdmi, ev0: Seq<BusEvent>, ev1: Seq<BusEvent>) -> bool {
        let thumb = self.cpsr & 0x20 != 0;
        let fetch_addr = self.r[15];
        let width: u32 = if thumb { 2 } else { 4 };
        let fetched = crate::bus::event_value(ev1[ev0.len() as int]);
        let e1 = ev0.push(read_event(if thumb { Width::Half } else { Width::Word }, fetch_addr, Access::Sequential, fetched));
        let op = self.pipeline[0];
        &&& ev1.len() > ev0.len()
        &&& ev1.subrange(0, ev0.len() as int + 1) == e1
        &&& ({
            let e2 = ev1.subrange(0, ev1.len() - 2);
            let back = if after.cpsr & 0x20 != 0 { 4u32 } else { 8u32 };
            let mid = with_pc_pipeline(after, after.r[15].wrapping_sub(back), self.pipeline);
            &&& ev1.len() >= e1.len() + 2
            &&& executed(self, op, mid, e1, e2, true)
            &&& mid.refilled(after, e2, ev1)
        } || {
            &&& after.pipeline[0] == self.pipeline[1]
            &&& after.pipeline[1] == fetched
            &&& ({
                &&& after.r[15] == fetch_addr.wrapping_add(width)
                &&& executed(self, op, with_pc_pipeline(after, fetch_addr, self.pipeline), e1, ev1, false)
            } || {
                &&& after.r[15] != fetch_addr
                &&& executed(self, op, with_pc_pipeline(after, after.r[15], self.pipeline), e1, ev1, false)
            })
        })
    }

    /// Flush the pipeline: two fresh fetches at R15 in the current
    /// instruction width. The prefetches are aligned, but R15 keeps the
    /// target's low bits.
    fn refill<B: Bus>(&mut self, bus: &mut B)
        ensures
            old(self).refilled(*final(self), old(bus).events(), final(bus).events()),
            final(bus).clock() >= old(bus).clock(),
            old(bus).inv() ==> final(bus).inv(),
            final(bus).setup() == old(bus).setup(),
    {
        let target = self.r[15];
        if self.thumb() {
            let aligned = target & 0xFFFF_FFFE;
            self.pipeline[0] = bus.read16(aligned, Access::NonSeq) as u32;
            self.pipeline[1] = bus.read16(aligned.wrapping_add(2), Access::Sequential) as u32;
            self.r[15] = target.wrapping_add(4);
        } else {
            let aligned = target & 0xFFFF_FFFC;
            self.pipeline[0] = bus.read32(aligned, Access::NonSeq);
            self.pipeline[1] = bus.read32(aligned.wrapping_add(4), Access::Sequential);
            self.r[15] = target.wrapping_add(8);
        }
        assert(self.r@ =~= old(self).r@.update(15, self.r[15]));
    }

    /// Fill the pipeline from the current PC (at boot, or after the PC was
    /// set from outside).
    pub fn reload_pipeline<B: Bus>(&mut self, bus: &mut B)
        ensures
            old(self).refilled(*final(self), old(bus).events(), final(bus).events()),
            final(bus).clock() >= old(bus).clock(),
            old(bus).inv() ==> final(bus).inv(),
            final(bus).setup() == old(bus).setup(),
    {
        self.refill(bus);
    }

    /// Execute the instruction in `pipeline[0]` and advance the pipeline.
    pub fn step<B: Bus>(&mut self, bus: &mut B)
        ensures
            old(self).stepped(*final(self), old(bus).events(), final(bus).events()),
            final(bus).clock() >= old(bus).clock(),
            old(bus).inv() ==> final(bus).inv(),
            final(bus).setup() == old(bus).setup(),
            old(bus).clock() < u64::MAX ==> final(bus).clock() > old(bus).clock(),
    {
        let op = self.pipeline[0];
        let thumb = self.thumb();
        let fetch_addr = self.r[15];
        let ghost ev0 = bus.events();
        let (fetched, width) = if thumb {
            (bus.read16(fetch_addr, Access::Sequential) as u32, 2u32)
        } else {
            (bus.read32(fetch_addr, Access::Sequential), 4u32)
        };
        let ghost e1 = bus.events();
        let ghost c0 = *self;
        let branched = if thumb {
            let h = op as u16;
            proof {
                crate::bits::lemma_u32_bits(op, 0);
            }
            thumb::execute(self, bus, h)
        } else {
            let cond = Cond::decode(op >> 28);
            if Flags::from_cpsr(self.cpsr).eval(cond) {
                arm::execute(self, bus, op)
            } else {
                false
            }
        };
        let ghost mid = *self;
        let ghost e2 = bus.events();
        assert(executed(c0, op, mid, e1, e2, branched));
        if branched {
            self.refill(bus);
            proof {
                let back = if self.cpsr & 0x20 != 0 { 4u32 } else { 8u32 };
                assert(self.r[15].wrapping_sub(back) == mid.r[15]);
                assert(vstd::array::spec_array_update(self.r, 15, mid.r[15]) =~= mid.r);
                assert(with_pc_pipeline(*self, mid.r[15], c0.pipeline) == mid);
                assert(bus.events().subrange(0, bus.events().len() - 2) =~= e2);
                assert(bus.events().subrange(0, ev0.len() as int + 1) =~= e1);
                assert(bus.events()[ev0.len() as int] == e1[ev0.len() as int]);
            }
        } else {
            self.pipeline[0] = self.pipeline[1];
            self.pipeline[1] = fetched;
            if self.r[15] == fetch_addr {
                self.r[15] = fetch_addr.wrapping_add(width);
            }
            proof {
                assert(vstd::array::spec_array_update(self.r, 15, mid.r[15]) =~= mid.r);
                assert(with_pc_pipeline(*self, mid.r[15], c0.pipeline) == mid);
                assert(bus.events().subrange(0, ev0.len() as int + 1) =~= e1);
                assert(bus.events()[ev0.len() as int] == e1[ev0.len() as int]);
            }
        }
    }
}

impl Arm7tdmi {
    /// `after` is `self` having taken an IRQ: IRQ mode entered with the
    /// return address (the next instruction to execute + 4) in LR_irq and the old
    /// CPSR in SPSR_irq, then the pipeline refilled from the IRQ vector.
    pub open spec fn took_irq(self, after: Arm7tdmi, ev0: Seq<BusEvent>, ev1: Seq<BusEvent>) -> bool {
        let twice: u32 = if self.cpsr & 0x20 != 0 { 4 } else { 8 };
        let ret = self.r[15].wrapping_sub(twice).wrapping_add(4);
        let mid = with_pc_pipeline(after, 0x18, self.pipeline);
        &&& self.entered_exception(mid, 0x12, ret, 0x18)
        &&& mid.refilled(after, ev0, ev1)
    }

    /// Take the IRQ exception and refill the pipeline from its vector.
    pub fn take_irq<B: Bus>(&mut self, bus: &mut B)
        ensures
            old(self).took_irq(*final(self), old(bus).events(), final(bus).events()),
            final(bus).clock() >= old(bus).clock(),
            old(bus).inv() ==> final(bus).inv(),
            final(bus).setup() == old(bus).setup(),
    {
        let twice: u32 = if self.thumb() { 4 } else { 8 };
        let ret = self.r[15].wrapping_sub(twice).wrapping_add(4);
        self.enter_exception(0x12, ret, 0x18);
        let ghost mid = *self;
        self.refill(bus);
        proof {
            assert(vstd::array::spec_array_update(self.r, 15, 0x18) =~= mid.r);
            assert(with_pc_pipeline(*self, 0x18, old(self).pipeline) == mid);
        }
    }

    /// Every register of every mode, and the SPSRs, as [`Arm7tdmi::load_full`]
    /// sets them: `r_usr` is the User view of r0..r15, `r_fiq` FIQ's r8..r14,
    /// the others r13/r14 of Supervisor, Abort, IRQ and Undefined.
    pub open spec fn loaded_full(
        self,
        cpsr: u32,
        r_usr: [u32; 16],
        r_fiq: [u32; 7],
        r_svc: [u32; 2],
        r_abt: [u32; 2],
        r_irq: [u32; 2],
        r_und: [u32; 2],
        spsr_bank: [u32; 5],
    ) -> bool {
        &&& self.cpsr == cpsr
        &&& forall|j: int| 0 <= j < 16 ==> #[trigger] self.reg_in_mode(0x10, j) == r_usr[j]
        &&& forall|k: int| 0 <= k < 7 ==> #[trigger] self.reg_in_mode(0x11, 8 + k) == r_fiq[k]
        &&& self.reg_in_mode(0x13, 13) == r_svc[0] && self.reg_in_mode(0x13, 14) == r_svc[1]
        &&& self.reg_in_mode(0x17, 13) == r_abt[0] && self.reg_in_mode(0x17, 14) == r_abt[1]
        &&& self.reg_in_mode(0x12, 13) == r_irq[0] && self.reg_in_mode(0x12, 14) == r_irq[1]
        &&& self.reg_in_mode(0x1B, 13) == r_und[0] && self.reg_in_mode(0x1B, 14) == r_und[1]
        &&& self.spsr_bank == spsr_bank
    }

    /// Load the complete banked register state and make the current mode's
    /// registers visible.
    pub fn load_full(
        &mut self,
        cpsr: u32,
        r_usr: [u32; 16],
        r_fiq: [u32; 7],
        r_svc: [u32; 2],
        r_abt: [u32; 2],
        r_irq: [u32; 2],
        r_und: [u32; 2],
        spsr_bank: [u32; 5],
    )
        ensures
            final(self).loaded_full(cpsr, r_usr, r_fiq, r_svc, r_abt, r_irq, r_und, spsr_bank),
            final(self).pipeline == old(self).pipeline,
            final(self).hle_bios == old(self).hle_bios,
    {
        self.cpsr = cpsr;
        let mut i: usize = 0;
        while i < 16
            invariant
                i <= 16,
                self.cpsr == cpsr,
                self.pipeline == old(self).pipeline,
                self.hle_bios == old(self).hle_bios,
                forall|j: int| 0 <= j < i ==> #[trigger] self.r[j] == r_usr[j],
                forall|j: int| 0 <= j < i && 8 <= j < 13 ==> #[trigger] self.r8_12[j - 8] == r_usr[j],
                forall|j: int| 0 <= j < i && 13 <= j < 15 ==> #[trigger] self.r13_14[j - 13] == r_usr[j],
            decreases 16 - i,
        {
            self.r[i] = r_usr[i];
            if 8 <= i && i < 13 {
                self.r8_12[i - 8] = r_usr[i];
            } else if i == 13 || i == 14 {
                self.r13_14[i - 13] = r_usr[i];
            }
            i = i + 1;
        }
        let mut k: usize = 0;
        while k < 5
            invariant
                k <= 5,
                self.cpsr == cpsr,
                self.pipeline == old(self).pipeline,
                self.hle_bios == old(self).hle_bios,
                forall|j: int| 0 <= j < 16 ==> #[trigger] self.r[j] == r_usr[j],
                forall|j: int| 8 <= j < 13 ==> #[trigger] self.r8_12[j - 8] == r_usr[j],
                forall|j: int| 13 <= j < 15 ==> #[trigger] self.r13_14[j - 13] == r_usr[j],
                forall|j: int| 0 <= j < k ==> #[trigger] self.r8_12[5 + j] == r_fiq[j],
            decreases 5 - k,
        {
            self.r8_12[5 + k] = r_fiq[k];
            k = k + 1;
        }
        self.r13_14[2] = r_fiq[5];
        self.r13_14[3] = r_fiq[6];
        self.r13_14[4] = r_svc[0];
        self.r13_14[5] = r_svc[1];
        self.r13_14[6] = r_abt[0];
        self.r13_14[7] = r_abt[1];
        self.r13_14[8] = r_irq[0];
        self.r13_14[9] = r_irq[1];
        self.r13_14[10] = r_und[0];
        self.r13_14[11] = r_und[1];
        self.spsr_bank = spsr_bank;
        let ghost before = *self;
        self.load_bank(cpsr & 0x1F);
        proof {
            crate::bits::lemma_mode_field(cpsr);
            crate::bits::lemma_mode_mask_idempotent();
            assert forall|j: int| 0 <= j < 16 implies #[trigger] self.reg_in_mode(0x10, j) == r_usr[j] by {
                if 8 <= j < 13 {
                    assert(before.r8_12[j - 8] == r_usr[j]);
                } else if 13 <= j < 15 {
                    assert(before.r13_14[j - 13] == r_usr[j]);
                } else {
                    assert(before.r[j] == r_usr[j]);
                }
            }
            assert forall|k: int| 0 <= k < 7 implies #[trigger] self.reg_in_mode(0x11, 8 + k) == r_fiq[k] by {
                if k < 5 {
                    assert(before.r8_12[5 + k] == r_fiq[k]);
                }
            }
        }
    }
}

/// The User-mode view of the registers is what a switch to User mode shows:
/// after `write_cpsr` to User mode (the other CPSR bits kept), the visible
/// r0..r14 are the User bank, and r15 is unchanged.
pub proof fn lemma_user_view(a: Arm7tdmi, c: Arm7tdmi, i: int)
    requires
        0 <= i < 16,
        a.switched(c, (a.cpsr & !0x1Fu32) | 0x10),
    ensures
        c.r[i] == a.reg_in_mode(0x10, i),
{
    let x = a.cpsr;
    assert((((x & !0x1Fu32) | 0x10u32) | 0x10u32) & 0x1F == 0x10) by (bit_vector);
    lemma_user_mode_code();
    c.lemma_active_view(i);
    if i < 15 {
        assert(c.reg_in_mode(0x10, i) == a.reg_in_mode(0x10, i));
    }
}

/// Writing the current mode's SPSR then reading it gives the value written
/// (0 in a mode without one: User, System); no other mode's SPSR, and no
/// register, changes.
pub proof fn lemma_spsr_write_then_read(a: Arm7tdmi, b: Arm7tdmi, v: u32)
    requires
        a.spsr_set(b, v),
    ensures
        b.spsr_of(b.cpsr) == if spsr_index(a.cpsr) is Some { v } else { 0 },
        b.r == a.r,
        b.cpsr == a.cpsr,
        forall|m: u32| spsr_index(m) != spsr_index(a.cpsr) ==> #[trigger] b.spsr_of(m) == a.spsr_of(m),
{
    assert(b.spsr_of(b.cpsr) == b.spsr_of(a.cpsr));
}

/// Switching to another mode and back restores every visible register.
pub proof fn lemma_mode_switch_roundtrip(a: Arm7tdmi, b: Arm7tdmi, c: Arm7tdmi, new: u32)
    requires
        a.cpsr & 0x10 != 0,
        b.cpsr == new | 0x10,
        forall|m: u32, j: int| 0 <= j < 16 ==> #[trigger] b.reg_in_mode(m, j) == a.reg_in_mode(m, j),
        c.cpsr == a.cpsr | 0x10,
        forall|m: u32, j: int| 0 <= j < 16 ==> #[trigger] c.reg_in_mode(m, j) == b.reg_in_mode(m, j),
    ensures
        c.r == a.r,
        c.cpsr == a.cpsr,
{
    let x = a.cpsr;
    crate::bits::lemma_mode_field(x);
    assert forall|i: int| 0 <= i < 16 implies c.r[i] == a.r[i] by {
        a.lemma_active_view(i);
        c.lemma_active_view(i);
        assert(c.reg_in_mode(c.cpsr, i) == a.reg_in_mode(a.cpsr, i));
    }
    assert(c.r =~= a.r);
}

} // verus!
