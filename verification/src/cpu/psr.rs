//! Program Status Register (CPSR/SPSR), processor modes and condition codes.

use vstd::prelude::*;

verus! {

/// The seven ARM7TDMI operating modes, encoded by the low 5 bits of the PSR.
#[derive(Clone, Copy, Debug, PartialEq, Eq, Structural)]
pub enum Mode {
    User,
    Fiq,
    Irq,
    Supervisor,
    Abort,
    Undefined,
    System,
}

/// Whether the low five bits `m` encode one of the seven modes.
pub open spec fn is_mode_code(m: u32) -> bool {
    m == 0x10 || m == 0x11 || m == 0x12 || m == 0x13 || m == 0x17 || m == 0x1B || m == 0x1F
}

impl Mode {
    /// The mode's 5-bit encoding.
    pub open spec fn code(self) -> u32 {
        match self {
            Mode::User => 0x10,
            Mode::Fiq => 0x11,
            Mode::Irq => 0x12,
            Mode::Supervisor => 0x13,
            Mode::Abort => 0x17,
            Mode::Undefined => 0x1B,
            Mode::System => 0x1F,
        }
    }

    /// The mode's 5-bit encoding.
    pub fn bits(self) -> (b: u32)
        ensures
            b == self.code(),
    {
        match self {
            Mode::User => 0x10,
            Mode::Fiq => 0x11,
            Mode::Irq => 0x12,
            Mode::Supervisor => 0x13,
            Mode::Abort => 0x17,
            Mode::Undefined => 0x1B,
            Mode::System => 0x1F,
        }
    }

    /// Decode the mode field (the low 5 bits of `bits`); `None` for the
    /// encodings that name no mode.
    pub fn from_bits(bits: u32) -> (r: Option<Mode>)
        ensures
            r is Some <==> is_mode_code(bits & 0x1F),
            r matches Some(m) ==> m.code() == bits & 0x1F,
    {
        match bits & 0x1F {
            0x10 => Some(Mode::User),
            0x11 => Some(Mode::Fiq),
            0x12 => Some(Mode::Irq),
            0x13 => Some(Mode::Supervisor),
            0x17 => Some(Mode::Abort),
            0x1B => Some(Mode::Undefined),
            0x1F => Some(Mode::System),
            _ => None,
        }
    }
}

/// Condition field of every ARM instruction (bits 31..28) and of the Thumb
/// conditional branch.
#[derive(Clone, Copy, Debug, PartialEq, Eq, Structural)]
pub enum Cond {
    Eq,
    Ne,
    Cs,
    Cc,
    Mi,
    Pl,
    Vs,
    Vc,
    Hi,
    Ls,
    Ge,
    Lt,
    Gt,
    Le,
    Al,
    Nv,
}

/// The condition a 4-bit field encodes.
pub open spec fn cond_of(nibble: u32) -> Cond {
    let n = nibble & 0xF;
    if n == 0x0 {
        Cond::Eq
    } else if n == 0x1 {
        Cond::Ne
    } else if n == 0x2 {
        Cond::Cs
    } else if n == 0x3 {
        Cond::Cc
    } else if n == 0x4 {
        Cond::Mi
    } else if n == 0x5 {
        Cond::Pl
    } else if n == 0x6 {
        Cond::Vs
    } else if n == 0x7 {
        Cond::Vc
    } else if n == 0x8 {
        Cond::Hi
    } else if n == 0x9 {
        Cond::Ls
    } else if n == 0xA {
        Cond::Ge
    } else if n == 0xB {
        Cond::Lt
    } else if n == 0xC {
        Cond::Gt
    } else if n == 0xD {
        Cond::Le
    } else if n == 0xE {
        Cond::Al
    } else {
        Cond::Nv
    }
}

impl Cond {
    /// Decode the low four bits of `nibble`.
    pub fn decode(nibble: u32) -> (c: Cond)
        ensures
            c == cond_of(nibble),
    {
        match nibble & 0xF {
            0x0 => Cond::Eq,
            0x1 => Cond::Ne,
            0x2 => Cond::Cs,
            0x3 => Cond::Cc,
            0x4 => Cond::Mi,
            0x5 => Cond::Pl,
            0x6 => Cond::Vs,
            0x7 => Cond::Vc,
            0x8 => Cond::Hi,
            0x9 => Cond::Ls,
            0xA => Cond::Ge,
            0xB => Cond::Lt,
            0xC => Cond::Gt,
            0xD => Cond::Le,
            0xE => Cond::Al,
            _ => Cond::Nv,
        }
    }
}

/// The condition-code flags, bits 31..28 of the CPSR.
#[derive(Clone, Copy, Debug, PartialEq, Eq, Structural)]
pub struct Flags {
    pub n: bool,
    pub z: bool,
    pub c: bool,
    pub v: bool,
}

impl Default for Flags {
    fn default() -> (f: Flags)
        ensures
            f == (Flags { n: false, z: false, c: false, v: false }),
    {
        Flags { n: false, z: false, c: false, v: false }
    }
}

/// The NZCV flags held in a PSR word.
pub open spec fn flags_of(cpsr: u32) -> Flags {
    Flags {
        n: cpsr & 0x8000_0000 != 0,
        z: cpsr & 0x4000_0000 != 0,
        c: cpsr & 0x2000_0000 != 0,
        v: cpsr & 0x1000_0000 != 0,
    }
}

/// The top nibble that a set of flags occupies in a PSR word.
pub open spec fn flags_word(f: Flags) -> u32 {
    (if f.n { 0x8000_0000u32 } else { 0u32 }) | (if f.z { 0x4000_0000u32 } else { 0u32 }) | (if f.c {
        0x2000_0000u32
    } else {
        0u32
    }) | (if f.v { 0x1000_0000u32 } else { 0u32 })
}

/// A PSR word with its flags replaced by `f` and every other bit kept.
pub open spec fn with_flags(f: Flags, cpsr: u32) -> u32 {
    (cpsr & 0x0FFF_FFFF) | flags_word(f)
}

impl Flags {
    /// Whether condition `cond` holds under these flags.
    pub open spec fn holds(self, cond: Cond) -> bool {
        match cond {
            Cond::Eq => self.z,
            Cond::Ne => !self.z,
            Cond::Cs => self.c,
            Cond::Cc => !self.c,
            Cond::Mi => self.n,
            Cond::Pl => !self.n,
            Cond::Vs => self.v,
            Cond::Vc => !self.v,
            Cond::Hi => self.c && !self.z,
            Cond::Ls => !self.c || self.z,
            Cond::Ge => self.n == self.v,
            Cond::Lt => self.n != self.v,
            Cond::Gt => !self.z && (self.n == self.v),
            Cond::Le => self.z || (self.n != self.v),
            Cond::Al => true,
            Cond::Nv => false,
        }
    }

    /// Extract NZCV from a full CPSR word (bits 31..28).
    pub fn from_cpsr(cpsr: u32) -> (f: Flags)
        ensures
            f == flags_of(cpsr),
    {
        Flags {
            n: cpsr & 0x8000_0000 != 0,
            z: cpsr & 0x4000_0000 != 0,
            c: cpsr & 0x2000_0000 != 0,
            v: cpsr & 0x1000_0000 != 0,
        }
    }

    /// Write NZCV back into a CPSR word, preserving every other bit.
    pub fn to_cpsr(&self, cpsr: u32) -> (r: u32)
        ensures
            r == with_flags(*self, cpsr),
    {
        let nb: u32 = if self.n { 0x8000_0000 } else { 0 };
        let zb: u32 = if self.z { 0x4000_0000 } else { 0 };
        let cb: u32 = if self.c { 0x2000_0000 } else { 0 };
        let vb: u32 = if self.v { 0x1000_0000 } else { 0 };
        (cpsr & 0x0FFF_FFFF) | (nb | zb | cb | vb)
    }

    /// Evaluate a condition code against the flags.
    pub fn eval(&self, cond: Cond) -> (b: bool)
        ensures
            b == self.holds(cond),
    {
        match cond {
            Cond::Eq => self.z,
            Cond::Ne => !self.z,
            Cond::Cs => self.c,
            Cond::Cc => !self.c,
            Cond::Mi => self.n,
            Cond::Pl => !self.n,
            Cond::Vs => self.v,
            Cond::Vc => !self.v,
            Cond::Hi => self.c && !self.z,
            Cond::Ls => !self.c || self.z,
            Cond::Ge => self.n == self.v,
            Cond::Lt => self.n != self.v,
            Cond::Gt => !self.z && (self.n == self.v),
            Cond::Le => self.z || (self.n != self.v),
            Cond::Al => true,
            Cond::Nv => false,
        }
    }
}

/// Reading the flags back out of a word they were written into gives the same
/// flags.
pub proof fn lemma_flags_roundtrip(f: Flags, cpsr: u32)
    ensures
        flags_of(with_flags(f, cpsr)) == f,
        with_flags(f, cpsr) & 0x0FFF_FFFF == cpsr & 0x0FFF_FFFF,
{
    let w = with_flags(f, cpsr);
    let (n, z, c, v) = (f.n, f.z, f.c, f.v);
    let nb = if n { 0x8000_0000u32 } else { 0u32 };
    let zb = if z { 0x4000_0000u32 } else { 0u32 };
    let cb = if c { 0x2000_0000u32 } else { 0u32 };
    let vb = if v { 0x1000_0000u32 } else { 0u32 };
    assert(w == (cpsr & 0x0FFF_FFFF) | (nb | zb | cb | vb));
    assert({
        let x = (cpsr & 0x0FFF_FFFF) | (nb | zb | cb | vb);
        &&& (x & 0x8000_0000 != 0 <==> n)
        &&& (x & 0x4000_0000 != 0 <==> z)
        &&& (x & 0x2000_0000 != 0 <==> c)
        &&& (x & 0x1000_0000 != 0 <==> v)
        &&& x & 0x0FFF_FFFF == cpsr & 0x0FFF_FFFF
    }) by (bit_vector)
        requires
            nb == if n { 0x8000_0000u32 } else { 0u32 },
            zb == if z { 0x4000_0000u32 } else { 0u32 },
            cb == if c { 0x2000_0000u32 } else { 0u32 },
            vb == if v { 0x1000_0000u32 } else { 0u32 },
    ;
}

/// Writing back the flags a word already holds leaves the word unchanged.
pub proof fn lemma_flags_rewrite_identity(cpsr: u32)
    ensures
        with_flags(flags_of(cpsr), cpsr) == cpsr,
{
    let f = flags_of(cpsr);
    let nb = if f.n { 0x8000_0000u32 } else { 0u32 };
    let zb = if f.z { 0x4000_0000u32 } else { 0u32 };
    let cb = if f.c { 0x2000_0000u32 } else { 0u32 };
    let vb = if f.v { 0x1000_0000u32 } else { 0u32 };
    assert(nb == cpsr & 0x8000_0000 && zb == cpsr & 0x4000_0000 && cb == cpsr & 0x2000_0000
        && vb == cpsr & 0x1000_0000 && (cpsr & 0x0FFF_FFFF) | ((cpsr & 0x8000_0000) | (cpsr
        & 0x4000_0000) | (cpsr & 0x2000_0000) | (cpsr & 0x1000_0000)) == cpsr) by (bit_vector)
        requires
            nb == if cpsr & 0x8000_0000 != 0 { 0x8000_0000u32 } else { 0u32 },
            zb == if cpsr & 0x4000_0000 != 0 { 0x4000_0000u32 } else { 0u32 },
            cb == if cpsr & 0x2000_0000 != 0 { 0x2000_0000u32 } else { 0u32 },
            vb == if cpsr & 0x1000_0000 != 0 { 0x1000_0000u32 } else { 0u32 },
    ;
}

/// Condition codes come in complementary pairs: flipping the low bit of the
/// field negates the condition (EQ/NE, CS/CC, ..., AL/NV).
pub proof fn lemma_cond_pairs_complement(f: Flags, nibble: u32)
    ensures
        f.holds(cond_of(nibble)) == !f.holds(cond_of(nibble ^ 1)),
{
    let n = nibble & 0xF;
    assert({
        &&& (nibble ^ 1) & 0xF == n ^ 1
        &&& n < 16
        &&& (n == 0 ==> n ^ 1 == 1)
        &&& (n == 1 ==> n ^ 1 == 0)
        &&& (n == 2 ==> n ^ 1 == 3)
        &&& (n == 3 ==> n ^ 1 == 2)
        &&& (n == 4 ==> n ^ 1 == 5)
        &&& (n == 5 ==> n ^ 1 == 4)
        &&& (n == 6 ==> n ^ 1 == 7)
        &&& (n == 7 ==> n ^ 1 == 6)
        &&& (n == 8 ==> n ^ 1 == 9)
        &&& (n == 9 ==> n ^ 1 == 8)
        &&& (n == 10 ==> n ^ 1 == 11)
        &&& (n == 11 ==> n ^ 1 == 10)
        &&& (n == 12 ==> n ^ 1 == 13)
        &&& (n == 13 ==> n ^ 1 == 12)
        &&& (n == 14 ==> n ^ 1 == 15)
        &&& (n == 15 ==> n ^ 1 == 14)
    }) by (bit_vector)
        requires
            n == nibble & 0xF,
    ;
}

} // verus!
